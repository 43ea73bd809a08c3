//! The second pass: laying the files out in the payload and writing the
//! descriptor table.

use crate::buffer::{add_externs, add_file_data, align_buffer, be16s, padded};
use crate::compress::{
    chosen_sampling, codec_output, compress_data, given_lengths, given_offsets, has_header,
    sampling_number,
};
use crate::error::{Failure, LinkError, PassError};
use crate::layout::{lemma_well_laid_out, well_laid_out};
use crate::pass1::{CDefs, Pass1, Source};
use crate::paths::{is_object, object_extension, path_extension};
use crate::script::InputFile;
use crate::section::{rel_outcome, relocate_obj, relocated_object, RelInfo, RelInfoView};
use crate::symbols::{Sym, SymMap};
use crate::table::{
    add_file_info, table_entry, terminate_table, terminator, FileInfo, ENTRY_LEN,
};
use vstd::prelude::*;

verus! {

/// The linked output: the descriptor table and the payload, with what the
/// first pass gathered.
#[derive(Debug)]
pub struct Pass2 {
    /// The bytes of `.filetable`.
    pub table: Vec<u8>,
    /// The bytes of `.files`.
    pub data: Vec<u8>,
    pub c_header: CDefs,
    pub symbols: SymMap,
    /// Where each input was found, in link order.
    pub inputs: Vec<String>,
}

/// The payload and the table at some point of the second pass.
pub struct Layout {
    pub payload: Seq<u8>,
    pub table: Seq<u8>,
}

/// A raw input as a file of the payload: its bytes as they are, and the
/// imports and relocation starts that its entry declares.
pub open spec fn raw_file(entry: InputFile, contents: Seq<u8>) -> RelInfoView {
    RelInfoView {
        data: contents,
        externs: match entry.imports {
            Some(ids) => Some(ids@),
            None => None,
        },
        inreloc: entry.inreloc,
        exreloc: entry.exreloc,
    }
}

/// An input as a file of the payload, before padding and compression.
pub open spec fn prepared(source: Source, index: Map<Seq<char>, Sym>) -> Result<
    RelInfoView,
    Failure,
> {
    if object_extension(path_extension(source.path@)) {
        relocated_object(source.contents@, index)
    } else {
        Ok(raw_file(source.entry, source.contents@))
    }
}

/// The bytes that are stored for a file whose padded bytes are `data`:
/// `data` itself, or for a compressed file what the codec gave, padded.
/// `encoded` is what the codec gave, none where it failed.
pub open spec fn stored(data: Seq<u8>, entry: InputFile, encoded: Option<Seq<u8>>) -> Result<
    Seq<u8>,
    Failure,
> {
    if !entry.compressed {
        Ok(data)
    } else {
        match chosen_sampling(entry.comp_settings, data.len()) {
            Err(e) => Err(e),
            Ok(_) => match encoded {
                None => Err(Failure::Compress),
                Some(bytes) => Ok(padded(bytes)),
            },
        }
    }
}

/// The payload with a file's trailer behind it, if the file has one.
pub open spec fn with_trailer(payload: Seq<u8>, externs: Option<Seq<u16>>) -> Seq<u8> {
    match externs {
        Some(ids) => padded(payload + be16s(ids)),
        None => payload,
    }
}

/// The descriptor of a file of `size` bytes that is stored as `rom` at the
/// end of `payload`.
pub open spec fn descriptor(
    payload: Seq<u8>,
    size: u32,
    rom: Seq<u8>,
    compressed: bool,
    inreloc: Option<u32>,
    exreloc: Option<u32>,
) -> FileInfo {
    FileInfo {
        offset: payload.len() as u32,
        size,
        rom_size: rom.len() as u32,
        compressed,
        inreloc,
        exreloc,
    }
}

/// The layout with one more file: the stored bytes go to the end of the
/// payload, which is padded; the trailer follows, padded too; the table gets
/// the file's entry. Fails where a length does not fit 32 bits or a field of
/// the entry cannot be reduced.
pub open spec fn placed(
    layout: Layout,
    size: u32,
    rom: Seq<u8>,
    compressed: bool,
    externs: Option<Seq<u16>>,
    inreloc: Option<u32>,
    exreloc: Option<u32>,
) -> Result<Layout, Failure> {
    if rom.len() > u32::MAX {
        Err(Failure::Overflow(rom.len() as u64))
    } else if layout.payload.len() > u32::MAX {
        Err(Failure::Overflow(layout.payload.len() as u64))
    } else {
        match table_entry(descriptor(layout.payload, size, rom, compressed, inreloc, exreloc)) {
            Err(e) => Err(e),
            Ok(entry) => Ok(
                Layout {
                    payload: with_trailer(padded(layout.payload + rom), externs),
                    table: layout.table + entry,
                },
            ),
        }
    }
}

/// The layout with one more input, where the codec gave `encoded` for it.
/// The input is made a file, the file is padded, compressed if the entry
/// asks for it, and placed.
#[verifier::opaque]
pub open spec fn link_entry(
    layout: Layout,
    source: Source,
    index: Map<Seq<char>, Sym>,
    encoded: Option<Seq<u8>>,
) -> Result<Layout, Failure> {
    match prepared(source, index) {
        Err(e) => Err(e),
        Ok(file) => {
            let data = padded(file.data);
            if data.len() > u32::MAX {
                Err(Failure::Overflow(data.len() as u64))
            } else {
                match stored(data, source.entry, encoded) {
                    Err(e) => Err(e),
                    Ok(rom) => placed(
                        layout,
                        data.len() as u32,
                        rom,
                        source.entry.compressed,
                        file.externs,
                        file.inreloc,
                        file.exreloc,
                    ),
                }
            }
        },
    }
}

/// The descriptor of the file that an input becomes, where the codec gave
/// `encoded` for it and the input can be linked.
pub open spec fn entry_descriptor(
    layout: Layout,
    source: Source,
    index: Map<Seq<char>, Sym>,
    encoded: Option<Seq<u8>>,
) -> FileInfo {
    let file = prepared(source, index)->Ok_0;
    let data = padded(file.data);
    descriptor(
        layout.payload,
        data.len() as u32,
        stored(data, source.entry, encoded)->Ok_0,
        source.entry.compressed,
        file.inreloc,
        file.exreloc,
    )
}

/// The layout after the first `n` inputs.
pub open spec fn linked(
    sources: Seq<Source>,
    index: Map<Seq<char>, Sym>,
    encoded: Seq<Option<Seq<u8>>>,
    n: int,
) -> Result<Layout, Failure>
    decreases n,
{
    if n <= 0 {
        Ok(Layout { payload: Seq::empty(), table: Seq::empty() })
    } else {
        match linked(sources, index, encoded, n - 1) {
            Err(e) => Err(e),
            Ok(layout) => link_entry(layout, sources[n - 1], index, encoded[n - 1]),
        }
    }
}

/// The payload and the closed table for a list of inputs.
pub open spec fn second_pass(
    sources: Seq<Source>,
    index: Map<Seq<char>, Sym>,
    encoded: Seq<Option<Seq<u8>>>,
) -> Result<Layout, Failure> {
    match linked(sources, index, encoded, sources.len() as int) {
        Err(e) => Err(e),
        Ok(layout) => match terminator(layout.payload.len()) {
            Err(e) => Err(e),
            Ok(end) => Ok(Layout { payload: layout.payload, table: layout.table + end }),
        },
    }
}

/// What is known of the bytes that the codec gave for an input: they are
/// what it gave for the padded file, the sampling that was asked for and
/// the trees of the entry, and they start with the header for that file and
/// that sampling.
#[verifier::opaque]
pub open spec fn codec_gave(source: Source, index: Map<Seq<char>, Sym>, encoded: Option<Seq<u8>>) -> bool {
    match (prepared(source, index), encoded) {
        (Ok(file), Some(out)) => match chosen_sampling(
            source.entry.comp_settings,
            padded(file.data).len(),
        ) {
            Ok(sampling) => source.entry.compressed ==> has_header(
                out,
                padded(file.data).len(),
                sampling,
            ) && codec_output(
                padded(file.data),
                sampling_number(sampling),
                given_offsets(source.entry.comp_settings),
                given_lengths(source.entry.comp_settings),
                out,
            ),
            Err(_) => true,
        },
        _ => true,
    }
}

/// Whether `r` and the layout `after` are the outcome of linking one input
/// into the layout `before`, where the codec gave `encoded` for it. On
/// failure the layout is as it was.
pub open spec fn source_linked(
    before: Layout,
    source: Source,
    index: Map<Seq<char>, Sym>,
    encoded: Option<Seq<u8>>,
    r: Result<FileInfo, LinkError>,
    after: Layout,
) -> bool {
    &&& codec_gave(source, index, encoded)
    &&& match link_entry(before, source, index, encoded) {
        Ok(layout) => r == Ok::<FileInfo, LinkError>(
            entry_descriptor(before, source, index, encoded),
        ) && after == layout,
        Err(e) => r matches Err(err) && err@ == e && after == before,
    }
}

/// Whether `input` is where the second pass stops: the position of the
/// first input that cannot be linked, or none where every input can.
pub open spec fn link_stops_at(
    sources: Seq<Source>,
    index: Map<Seq<char>, Sym>,
    encoded: Seq<Option<Seq<u8>>>,
    input: Option<usize>,
) -> bool {
    match input {
        Some(i) => i < sources.len() && linked(sources, index, encoded, i as int) is Ok && linked(
            sources,
            index,
            encoded,
            i + 1,
        ) is Err,
        None => linked(sources, index, encoded, sources.len() as int) is Ok,
    }
}

/// Whether `r` is the outcome of the second pass on what the first pass
/// gathered, where the codec gave `encoded[i]` for input `i`.
pub open spec fn links(pass1: Pass1, encoded: Seq<Option<Seq<u8>>>, r: Result<Pass2, PassError>) -> bool {
    &&& encoded.len() == pass1.sources@.len()
    &&& forall|i: int|
        0 <= i < encoded.len() ==> codec_gave(pass1.sources@[i], pass1.sym_map@, #[trigger] encoded[i])
    &&& match second_pass(pass1.sources@, pass1.sym_map@, encoded) {
        Ok(layout) => {
            &&& r matches Ok(pass)
            &&& pass.data@ == layout.payload
            &&& pass.table@ == layout.table
            &&& pass.c_header == pass1.c_header
            &&& pass.symbols == pass1.sym_map
            &&& pass.inputs@.len() == pass1.sources@.len()
            &&& forall|i: int|
                0 <= i < pass.inputs@.len() ==> (#[trigger] pass.inputs@[i])@
                    == pass1.sources@[i].path@
        },
        Err(e) => r matches Err(err) && err.error@ == e && link_stops_at(
            pass1.sources@,
            pass1.sym_map@,
            encoded,
            err.input,
        ),
    }
}

/// Once the pass has stopped at an input, the inputs after it are not
/// looked at.
pub proof fn lemma_linked_stops(
    sources: Seq<Source>,
    index: Map<Seq<char>, Sym>,
    encoded: Seq<Option<Seq<u8>>>,
    n: int,
    m: int,
)
    requires
        n <= m,
        linked(sources, index, encoded, n) is Err,
    ensures
        linked(sources, index, encoded, m) == linked(sources, index, encoded, n),
    decreases m - n,
{
    if n < m {
        lemma_linked_stops(sources, index, encoded, n, m - 1);
    }
}

/// The layout after `n` inputs depends on what the codec gave for those
/// inputs alone.
pub proof fn lemma_linked_prefix(
    sources: Seq<Source>,
    index: Map<Seq<char>, Sym>,
    a: Seq<Option<Seq<u8>>>,
    b: Seq<Option<Seq<u8>>>,
    n: int,
)
    requires
        forall|i: int| 0 <= i < n ==> a[i] == b[i],
    ensures
        linked(sources, index, a, n) == linked(sources, index, b, n),
    decreases n,
{
    if n > 0 {
        lemma_linked_prefix(sources, index, a, b, n - 1);
    }
}

/// What one more input does to the layout after the inputs before it.
pub proof fn lemma_linked_step(
    sources: Seq<Source>,
    index: Map<Seq<char>, Sym>,
    before: Seq<Option<Seq<u8>>>,
    gave: Option<Seq<u8>>,
)
    ensures
        linked(sources, index, before.push(gave), before.len() as int + 1) == match linked(
            sources,
            index,
            before,
            before.len() as int,
        ) {
            Err(e) => Err(e),
            Ok(layout) => link_entry(layout, sources[before.len() as int], index, gave),
        },
{
    lemma_linked_prefix(sources, index, before, before.push(gave), before.len() as int);
}

/// Where the pass stops at an input, it fails as a whole, whatever the
/// codec would have given for the inputs after it.
pub proof fn lemma_stopped(
    sources: Seq<Source>,
    index: Map<Seq<char>, Sym>,
    encoded: Seq<Option<Seq<u8>>>,
) -> (all: Seq<Option<Seq<u8>>>)
    requires
        1 <= encoded.len() <= sources.len(),
        linked(sources, index, encoded, encoded.len() as int) is Err,
        forall|k: int| 0 <= k < encoded.len() ==> codec_gave(sources[k], index, #[trigger] encoded[k]),
    ensures
        all.len() == sources.len(),
        forall|k: int| 0 <= k < all.len() ==> codec_gave(sources[k], index, #[trigger] all[k]),
        second_pass(sources, index, all) == Err::<Layout, Failure>(
            linked(sources, index, encoded, encoded.len() as int)->Err_0,
        ),
        linked(sources, index, all, encoded.len() as int) == linked(
            sources,
            index,
            encoded,
            encoded.len() as int,
        ),
        linked(sources, index, all, encoded.len() - 1) == linked(
            sources,
            index,
            encoded,
            encoded.len() - 1,
        ),
{
    reveal(codec_gave);
    let rest = Seq::new((sources.len() - encoded.len()) as nat, |k: int| None::<Seq<u8>>);
    let all = encoded + rest;
    lemma_linked_prefix(sources, index, encoded, all, encoded.len() as int);
    lemma_linked_prefix(sources, index, encoded, all, encoded.len() - 1);
    lemma_linked_stops(sources, index, all, encoded.len() as int, sources.len() as int);
    assert forall|k: int| 0 <= k < all.len() implies codec_gave(sources[k], index, #[trigger] all[k]) by {
        if k < encoded.len() {
            assert(all[k] == encoded[k]);
        }
    }
    all
}

/// Places one file: appends the stored bytes `rom` to the payload and pads
/// it, appends the trailer of `externs` if there is one and pads again, and
/// appends the file's entry to the table. `size` is the length of the file
/// once loaded. Returns the file's descriptor; on failure the payload and
/// the table are as they were.
pub fn place_file(
    output: &mut Vec<u8>,
    table: &mut Vec<u8>,
    size: u32,
    rom: &[u8],
    compressed: bool,
    externs: Option<&[u16]>,
    inreloc: Option<u32>,
    exreloc: Option<u32>,
) -> (r: Result<FileInfo, LinkError>)
    ensures
        match placed(
            Layout { payload: old(output)@, table: old(table)@ },
            size,
            rom@,
            compressed,
            match externs {
                Some(ids) => Some(ids@),
                None => None,
            },
            inreloc,
            exreloc,
        ) {
            Ok(layout) => r == Ok::<FileInfo, LinkError>(
                descriptor(old(output)@, size, rom@, compressed, inreloc, exreloc),
            ) && final(output)@ == layout.payload && final(table)@ == layout.table,
            Err(e) => r matches Err(err) && err@ == e && final(output)@ == old(output)@
                && final(table)@ == old(table)@,
        },
{
    if rom.len() > u32::MAX as usize {
        return Err(LinkError::Overflow(rom.len() as u64));
    }
    if output.len() > u32::MAX as usize {
        return Err(LinkError::Overflow(output.len() as u64));
    }
    let info = FileInfo {
        offset: output.len() as u32,
        size,
        rom_size: rom.len() as u32,
        compressed,
        inreloc,
        exreloc,
    };
    match add_file_info(table, info) {
        Ok(()) => {},
        Err(e) => {
            return Err(e);
        },
    }
    add_file_data(output, rom);
    match externs {
        Some(ids) => {
            add_externs(output, ids);
        },
        None => {},
    }
    Ok(info)
}

/// Makes an input a file of the payload: an object has its `.data` section
/// relocated against the index; a raw file is taken as it is, with the
/// imports and relocation starts of its entry.
pub fn prepare(source: &Source, sym_map: &SymMap) -> (r: Result<RelInfo, LinkError>)
    ensures
        rel_outcome(r) == prepared(*source, sym_map@),
{
    if is_object(source.path.as_str()) {
        relocate_obj(source.contents.as_slice(), sym_map)
    } else {
        Ok(
            RelInfo {
                data: source.contents.clone(),
                externs: source.entry.imports.clone(),
                inreloc: source.entry.inreloc,
                exreloc: source.entry.exreloc,
            },
        )
    }
}

impl Pass2 {
    /// Runs the second pass: every input, in order, is made a file, padded,
    /// compressed if its entry asks for it, and placed; then the table is
    /// closed. The outcome is that of [`second_pass`] for the bytes that the
    /// codec gave.
    pub fn run(pass1: Pass1) -> (r: Result<Pass2, PassError>)
        ensures
            exists|encoded: Seq<Option<Seq<u8>>>| #[trigger] links(pass1, encoded, r),
            r matches Ok(pass) ==> well_laid_out(
                pass.table@,
                pass.data@,
                pass1.sources@.len() as int,
            ),
    {
        let ghost given = pass1;
        let Pass1 { sources, sym_map, c_header } = pass1;
        let mut output: Vec<u8> = Vec::with_capacity(0x0100_0000);
        let mut table: Vec<u8> = if sources.len() < 0x0100_0000 {
            Vec::with_capacity((sources.len() + 1) * ENTRY_LEN)
        } else {
            Vec::new()
        };
        let mut inputs: Vec<String> = Vec::with_capacity(sources.len());
        let ghost mut encoded: Seq<Option<Seq<u8>>> = Seq::empty();
        let n = sources.len();
        let mut i: usize = 0;
        while i < n
            invariant
                i <= n,
                n == sources@.len(),
                given == pass1,
                given.sources == sources,
                given.sym_map == sym_map,
                given.c_header == c_header,
                encoded.len() == i,
                forall|k: int|
                    0 <= k < i ==> codec_gave(sources@[k], sym_map@, #[trigger] encoded[k]),
                linked(sources@, sym_map@, encoded, i as int) == Ok::<Layout, Failure>(
                    Layout { payload: output@, table: table@ },
                ),
                inputs@.len() == i,
                forall|k: int| 0 <= k < i ==> (#[trigger] inputs@[k])@ == sources@[k].path@,
            decreases n - i,
        {
            let source = &sources[i];
            let ghost layout = Layout { payload: output@, table: table@ };
            let ghost before = encoded;
            let step = Self::add_source(&mut output, &mut table, source, &sym_map);
            let ghost gave = choose|gave: Option<Seq<u8>>|
                source_linked(
                    layout,
                    *source,
                    sym_map@,
                    gave,
                    step,
                    Layout { payload: output@, table: table@ },
                );
            proof {
                encoded = before.push(gave);
                lemma_linked_step(sources@, sym_map@, before, gave);
                assert forall|k: int| 0 <= k < encoded.len() implies codec_gave(
                    sources@[k],
                    sym_map@,
                    #[trigger] encoded[k],
                ) by {
                    if k < i {
                        assert(encoded[k] == before[k]);
                    }
                }
            }
            match step {
                Ok(_) => {},
                Err(e) => {
                    let err = PassError { input: Some(i), error: e };
                    proof {
                        let all = lemma_stopped(sources@, sym_map@, encoded);
                        lemma_linked_prefix(sources@, sym_map@, before, encoded, i as int);
                        assert(link_stops_at(sources@, sym_map@, all, err.input));
                        assert(links(given, all, Err::<Pass2, PassError>(err)));
                    }
                    return Err(err);
                },
            }
            inputs.push(source.path.clone());
            i += 1;
        }
        match terminate_table(&mut table, output.len()) {
            Ok(()) => {},
            Err(e) => {
                let err = PassError { input: None, error: e };
                proof {
                    assert(links(given, encoded, Err::<Pass2, PassError>(err)));
                }
                return Err(err);
            },
        }
        let pass = Pass2 { table, data: output, c_header, symbols: sym_map, inputs };
        proof {
            assert(links(given, encoded, Ok::<Pass2, PassError>(pass)));
            lemma_well_laid_out(given.sources@, given.sym_map@, encoded);
        }
        Ok(pass)
    }

    /// Links one input: makes it a file, pads it, compresses it if its
    /// entry asks for it, and places it. Returns the file's descriptor.
    pub fn add_source(
        output: &mut Vec<u8>,
        table: &mut Vec<u8>,
        source: &Source,
        sym_map: &SymMap,
    ) -> (r: Result<FileInfo, LinkError>)
        ensures
            exists|encoded: Option<Seq<u8>>| #[trigger]
                source_linked(
                    Layout { payload: old(output)@, table: old(table)@ },
                    *source,
                    sym_map@,
                    encoded,
                    r,
                    Layout { payload: final(output)@, table: final(table)@ },
                ),
    {
        proof {
            reveal(link_entry);
            reveal(codec_gave);
        }
        let ghost before = Layout { payload: output@, table: table@ };
        let file = match prepare(source, sym_map) {
            Ok(file) => file,
            Err(e) => {
                assert(source_linked(before, *source, sym_map@, None, Err(e), before));
                return Err(e);
            },
        };
        let RelInfo { data, externs, inreloc, exreloc } = file;
        let mut data = data;
        align_buffer(&mut data);
        if data.len() > u32::MAX as usize {
            let r = Err(LinkError::Overflow(data.len() as u64));
            assert(source_linked(before, *source, sym_map@, None, r, before));
            return r;
        }
        let size = data.len() as u32;
        let ghost mut gave: Option<Seq<u8>> = None;
        let rom = if source.entry.compressed {
            let settings = match &source.entry.comp_settings {
                Some(s) => Some(s),
                None => None,
            };
            match compress_data(data, settings) {
                Ok(out) => {
                    let mut out = out;
                    proof {
                        gave = Some(out@);
                    }
                    align_buffer(&mut out);
                    out
                },
                Err(e) => {
                    assert(source_linked(before, *source, sym_map@, None, Err(e), before));
                    return Err(e);
                },
            }
        } else {
            data
        };
        let ids = match &externs {
            Some(ids) => Some(ids.as_slice()),
            None => None,
        };
        let placed = place_file(
            output,
            table,
            size,
            rom.as_slice(),
            source.entry.compressed,
            ids,
            inreloc,
            exreloc,
        );
        assert(source_linked(
            before,
            *source,
            sym_map@,
            gave,
            placed,
            Layout { payload: output@, table: table@ },
        ));
        placed
    }
}

} // verus!
