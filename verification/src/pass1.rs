//! The first pass: naming every input for C code and indexing the global
//! symbols that the inputs define.

use crate::error::{Failure, LinkError, PassError};
use crate::objfile::{object_symbols, read_symbols, symbol_views, ObjSymbol, SymKind, SymbolView};
use crate::paths::{fmt_filename, header_name_of, is_object, object_extension, path_extension};
use crate::script::InputFile;
use crate::symbols::{Sym, SymMap};
use vstd::prelude::*;

verus! {

/// The names of the inputs for C code, each with the input's position.
pub type CDefs = Vec<(String, u16)>;

/// An input that was found and read.
#[derive(Debug, Clone, PartialEq, Eq)]
pub struct Source {
    /// The input's entry in the script, with the path as the script has it.
    pub entry: InputFile,
    /// Where the file was found.
    pub path: String,
    /// The file's bytes.
    pub contents: Vec<u8>,
}

/// What the first pass hands to the second.
#[derive(Debug)]
pub struct Pass1 {
    pub sources: Vec<Source>,
    pub sym_map: SymMap,
    pub c_header: CDefs,
}

/// What the first pass has gathered at some point.
pub struct Scan {
    /// The symbol index.
    pub index: Map<Seq<char>, Sym>,
    /// The names for C code.
    pub names: Seq<(Seq<char>, u16)>,
    /// The last symbol that a raw input defined again, with the definition
    /// that the index held before.
    pub duplicate: Option<(Seq<char>, Sym)>,
}

/// A list of names for C code as specifications speak of it.
pub open spec fn cdef_views(defs: Seq<(String, u16)>) -> Seq<(Seq<char>, u16)> {
    Seq::new(defs.len(), |i: int| (defs[i].0@, defs[i].1))
}

/// A list of declared exports as specifications speak of it.
pub open spec fn export_views(exports: Seq<(String, u32)>) -> Seq<(Seq<char>, u32)> {
    Seq::new(exports.len(), |i: int| (exports[i].0@, exports[i].1))
}

/// A symbol that was defined again, as specifications speak of it.
pub open spec fn duplicate_view(d: Option<(String, Sym)>) -> Option<(Seq<char>, Sym)> {
    match d {
        Some((name, sym)) => Some((name@, sym)),
        None => None,
    }
}

/// The address of an object's symbol as the index keeps it: its low 32 bits.
pub open spec fn address_of(symbol: SymbolView) -> u32 {
    (symbol.address % 0x1_0000_0000) as u32
}

/// Whether an object's symbol goes into the index: it is global and of no
/// known kind.
pub open spec fn is_exported(symbol: SymbolView) -> bool {
    symbol.kind == SymKind::Unknown && symbol.global
}

/// The index after the first `n` symbols of an object, which is input
/// `file`, are looked at, with the failure that stopped the work, if one
/// did. A definition replaces an earlier one of the same name.
pub open spec fn indexed(index: Map<Seq<char>, Sym>, symbols: Seq<SymbolView>, file: u16, n: int) -> (
    Map<Seq<char>, Sym>,
    Option<Failure>,
)
    decreases n,
{
    if n <= 0 {
        (index, None)
    } else {
        let before = indexed(index, symbols, file, n - 1);
        let symbol = symbols[n - 1];
        if before.1 is Some || !is_exported(symbol) {
            before
        } else {
            match symbol.name {
                None => (before.0, Some(Failure::ObjectParse)),
                Some(name) => (before.0.insert(name, Sym { addr: address_of(symbol), file }), None),
            }
        }
    }
}

/// The index after the exports of a raw input, which is input `file`, are
/// defined from the one at `from` on, with the symbol that was defined
/// again, if one was. The exports after such a symbol are left out.
pub open spec fn exported(
    index: Map<Seq<char>, Sym>,
    exports: Seq<(Seq<char>, u32)>,
    file: u16,
    from: int,
) -> (Map<Seq<char>, Sym>, Option<(Seq<char>, Sym)>)
    decreases exports.len() - from,
{
    if from < 0 || from >= exports.len() {
        (index, None)
    } else {
        let name = exports[from].0;
        let next = index.insert(name, Sym { addr: exports[from].1, file });
        if index.dom().contains(name) {
            (next, Some((name, index[name])))
        } else {
            exported(next, exports, file, from + 1)
        }
    }
}

/// What input `i` adds to what was gathered, or why the pass stops.
pub open spec fn scan_entry(scan: Scan, source: Source, i: int) -> Result<Scan, Failure> {
    if i > 0xFFFF {
        Err(Failure::Overflow(i as u64))
    } else {
        let names = scan.names.push((header_name_of(source.entry.file@), i as u16));
        if object_extension(path_extension(source.path@)) {
            match object_symbols(source.contents@) {
                None => Err(Failure::ObjectParse),
                Some(symbols) => {
                    let after = indexed(scan.index, symbols, i as u16, symbols.len() as int);
                    match after.1 {
                        Some(e) => Err(e),
                        None => Ok(Scan { index: after.0, names, ..scan }),
                    }
                },
            }
        } else {
            match source.entry.exports {
                None => Ok(Scan { names, ..scan }),
                Some(exports) => {
                    let after = exported(scan.index, export_views(exports@), i as u16, 0);
                    Ok(
                        Scan {
                            index: after.0,
                            names,
                            duplicate: if after.1 is Some {
                                after.1
                            } else {
                                scan.duplicate
                            },
                        },
                    )
                },
            }
        }
    }
}

/// What is gathered from the first `n` inputs, or why the pass stops.
pub open spec fn scanned(sources: Seq<Source>, n: int) -> Result<Scan, Failure>
    decreases n,
{
    if n <= 0 {
        Ok(Scan { index: Map::empty(), names: Seq::empty(), duplicate: None })
    } else {
        match scanned(sources, n - 1) {
            Err(e) => Err(e),
            Ok(scan) => scan_entry(scan, sources[n - 1], n - 1),
        }
    }
}

/// What the first pass gives for a list of inputs. Where a raw input defined
/// a symbol again, the pass fails once every input was looked at, and names
/// the symbol and the file that defined it before.
pub open spec fn first_pass(sources: Seq<Source>) -> Result<Scan, Failure> {
    match scanned(sources, sources.len() as int) {
        Err(e) => Err(e),
        Ok(scan) => match scan.duplicate {
            Some((name, sym)) => Err(
                Failure::DuplicateSymbol { name, file: sources[sym.file as int].path@ },
            ),
            None => Ok(scan),
        },
    }
}

/// Whether `input` is where the pass over `sources` stops: the position
/// of the first input that cannot be gone through, or none where every
/// input can.
pub open spec fn scan_stops_at(sources: Seq<Source>, input: Option<usize>) -> bool {
    match input {
        Some(i) => i < sources.len() && scanned(sources, i as int) is Ok && scanned(
            sources,
            i + 1,
        ) is Err,
        None => scanned(sources, sources.len() as int) is Ok,
    }
}

/// Whether every definition of an index lies in an input before number `n`.
pub open spec fn defined_before(index: Map<Seq<char>, Sym>, n: int) -> bool {
    forall|name: Seq<char>| index.dom().contains(name) ==> (#[trigger] index[name]).file < n
}

/// Indexing an object's symbols keeps the definitions of other names and
/// gives every name it defines the object's number.
pub proof fn lemma_indexed_files(
    index: Map<Seq<char>, Sym>,
    symbols: Seq<SymbolView>,
    file: u16,
    n: int,
)
    requires
        defined_before(index, file as int),
    ensures
        defined_before(indexed(index, symbols, file, n).0, file + 1),
    decreases n,
{
    if n > 0 {
        lemma_indexed_files(index, symbols, file, n - 1);
    }
}

/// Defining a raw input's exports keeps the definitions of other names and
/// gives every name it defines the input's number; a symbol that is found
/// defined again was defined by this input or an earlier one.
pub proof fn lemma_exported_files(
    index: Map<Seq<char>, Sym>,
    exports: Seq<(Seq<char>, u32)>,
    file: u16,
    from: int,
)
    requires
        defined_before(index, file + 1),
    ensures
        defined_before(exported(index, exports, file, from).0, file + 1),
        exported(index, exports, file, from).1 matches Some((_, sym)) ==> sym.file <= file,
    decreases exports.len() - from,
{
    if 0 <= from < exports.len() {
        let name = exports[from].0;
        let next = index.insert(name, Sym { addr: exports[from].1, file });
        if !index.dom().contains(name) {
            lemma_exported_files(next, exports, file, from + 1);
        }
    }
}

/// Once the pass has stopped at an input, the inputs after it are not
/// looked at.
pub proof fn lemma_scanned_stops(sources: Seq<Source>, n: int, m: int)
    requires
        n <= m,
        scanned(sources, n) is Err,
    ensures
        scanned(sources, m) == scanned(sources, n),
    decreases m - n,
{
    if n < m {
        lemma_scanned_stops(sources, n, m - 1);
    }
}

/// The pass names every input once, in order, with its position.
pub proof fn lemma_scanned_names(sources: Seq<Source>, n: int)
    requires
        0 <= n <= sources.len(),
        scanned(sources, n) is Ok,
    ensures
        n <= 0x1_0000,
        scanned(sources, n)->Ok_0.names.len() == n,
        forall|i: int|
            0 <= i < n ==> (#[trigger] scanned(sources, n)->Ok_0.names[i]) == (
                header_name_of(sources[i].entry.file@),
                i as u16,
            ),
    decreases n,
{
    if n > 0 {
        lemma_scanned_names(sources, n - 1);
    }
}

/// Adds the global symbols of no known kind among `symbols` to the index as
/// definitions of input `file`. A name that was defined before is defined
/// anew. Stops at the first such symbol whose name cannot be read; what was
/// added before stays.
pub fn index_symbols(sym_map: &mut SymMap, symbols: &Vec<ObjSymbol>, file: u16) -> (r: Result<
    (),
    LinkError,
>)
    ensures
        final(sym_map)@ == indexed(
            old(sym_map)@,
            symbol_views(symbols@),
            file,
            symbols.len() as int,
        ).0,
        crate::error::outcome(r) == match indexed(
            old(sym_map)@,
            symbol_views(symbols@),
            file,
            symbols.len() as int,
        ).1 {
            None => Ok::<(), Failure>(()),
            Some(e) => Err(e),
        },
{
    let ghost views = symbol_views(symbols@);
    let mut i: usize = 0;
    while i < symbols.len()
        invariant
            i <= symbols.len(),
            views == symbol_views(symbols@),
            indexed(old(sym_map)@, views, file, i as int) == (sym_map@, None::<Failure>),
        decreases symbols.len() - i,
    {
        let symbol = &symbols[i];
        assert(views[i as int] == symbol@);
        if symbol.kind == SymKind::Unknown && symbol.global {
            match &symbol.name {
                Some(name) => {
                    let addr = (symbol.address % 0x1_0000_0000) as u32;
                    sym_map.insert(name.clone(), Sym { addr, file });
                },
                None => {
                    proof {
                        lemma_indexed_stops(
                            old(sym_map)@,
                            views,
                            file,
                            i + 1,
                            symbols.len() as int,
                        );
                    }
                    return Err(LinkError::ObjectParse);
                },
            }
        }
        i += 1;
    }
    Ok(())
}

/// Once a symbol's name cannot be read, the symbols after it are not
/// looked at.
pub proof fn lemma_indexed_stops(
    index: Map<Seq<char>, Sym>,
    symbols: Seq<SymbolView>,
    file: u16,
    n: int,
    m: int,
)
    requires
        n <= m,
        indexed(index, symbols, file, n).1 is Some,
    ensures
        indexed(index, symbols, file, m) == indexed(index, symbols, file, n),
    decreases m - n,
{
    if n < m {
        lemma_indexed_stops(index, symbols, file, n, m - 1);
    }
}

/// What indexing the object in `contents` does to an index: nothing where
/// the bytes cannot be decoded, else what indexing its symbols does.
pub open spec fn object_indexed(index: Map<Seq<char>, Sym>, contents: Seq<u8>, file: u16) -> (
    Map<Seq<char>, Sym>,
    Option<Failure>,
) {
    match object_symbols(contents) {
        None => (index, Some(Failure::ObjectParse)),
        Some(symbols) => indexed(index, symbols, file, symbols.len() as int),
    }
}

/// Decodes `contents` as an object and indexes its symbols as definitions
/// of input `file`.
pub fn index_object(sym_map: &mut SymMap, contents: &[u8], file: u16) -> (r: Result<(), LinkError>)
    ensures
        final(sym_map)@ == object_indexed(old(sym_map)@, contents@, file).0,
        crate::error::outcome(r) == match object_indexed(old(sym_map)@, contents@, file).1 {
            None => Ok::<(), Failure>(()),
            Some(e) => Err(e),
        },
{
    match read_symbols(contents) {
        Ok(symbols) => index_symbols(sym_map, &symbols, file),
        Err(_) => Err(LinkError::ObjectParse),
    }
}

/// Defines the exports of a raw input, which is input `file`, in the order
/// they are declared. At the first name that the index already holds, the
/// name is defined anew, the rest is left out, and the name is returned with
/// the definition it had.
pub fn index_exports(sym_map: &mut SymMap, exports: &Vec<(String, u32)>, file: u16) -> (r: Option<
    (String, Sym),
>)
    ensures
        final(sym_map)@ == exported(old(sym_map)@, export_views(exports@), file, 0).0,
        duplicate_view(r) == exported(old(sym_map)@, export_views(exports@), file, 0).1,
{
    let ghost views = export_views(exports@);
    let mut i: usize = 0;
    while i < exports.len()
        invariant
            i <= exports.len(),
            views == export_views(exports@),
            exported(old(sym_map)@, views, file, 0) == exported(sym_map@, views, file, i as int),
        decreases exports.len() - i,
    {
        let name = exports[i].0.clone();
        let sym = Sym { addr: exports[i].1, file };
        assert(views[i as int] == (name@, sym.addr));
        match sym_map.insert(name, sym) {
            Some(previous) => {
                return Some((exports[i].0.clone(), previous));
            },
            None => {},
        }
        i += 1;
    }
    None
}

impl Pass1 {
    /// Runs the first pass over the inputs in order. Each input gets its
    /// name for C code, derived from the path that the script has for it. An
    /// input whose file ends in `.o` has its global symbols of no known kind
    /// indexed; any other input has its declared exports indexed. Every
    /// definition of the index names an input of the list.
    pub fn run(sources: Vec<Source>) -> (r: Result<Pass1, PassError>)
        ensures
            match first_pass(sources@) {
                Ok(scan) => r matches Ok(pass) && pass.sources == sources && pass.sym_map@
                    == scan.index && cdef_views(pass.c_header@) == scan.names && defined_before(
                    pass.sym_map@,
                    sources@.len() as int,
                ),
                Err(e) => r matches Err(err) && err.error@ == e && scan_stops_at(
                    sources@,
                    err.input,
                ),
            },
    {
        let mut sym_map = SymMap::new();
        let mut c_header: CDefs = Vec::with_capacity(sources.len());
        let mut sym_rename: Option<(String, Sym)> = None;
        let mut i: usize = 0;
        assert(cdef_views(c_header@) =~= Seq::<(Seq<char>, u16)>::empty());
        while i < sources.len()
            invariant
                i <= sources.len(),
                scanned(sources@, i as int) == Ok::<Scan, Failure>(
                    Scan {
                        index: sym_map@,
                        names: cdef_views(c_header@),
                        duplicate: duplicate_view(sym_rename),
                    },
                ),
                defined_before(sym_map@, i as int),
                sym_rename matches Some((_, sym)) ==> sym.file < i,
            decreases sources.len() - i,
        {
            let ghost before = Scan {
                index: sym_map@,
                names: cdef_views(c_header@),
                duplicate: duplicate_view(sym_rename),
            };
            proof {
                if scan_entry(before, sources@[i as int], i as int) is Err {
                    lemma_scanned_stops(sources@, i + 1, sources.len() as int);
                }
            }
            if i > 0xFFFF {
                return Err(PassError { input: Some(i), error: LinkError::Overflow(i as u64) });
            }
            let idx = i as u16;
            let source = &sources[i];
            let ghost names = c_header@;
            c_header.push((fmt_filename(source.entry.file.as_str()), idx));
            assert(cdef_views(c_header@) =~= cdef_views(names).push(
                (header_name_of(source.entry.file@), idx),
            ));
            if is_object(source.path.as_str()) {
                proof {
                    match object_symbols(source.contents@) {
                        Some(symbols) => {
                            lemma_indexed_files(sym_map@, symbols, idx, symbols.len() as int);
                        },
                        None => {},
                    }
                }
                match index_object(&mut sym_map, source.contents.as_slice(), idx) {
                    Ok(()) => {},
                    Err(e) => {
                        return Err(PassError { input: Some(i), error: e });
                    },
                }
            } else {
                match &source.entry.exports {
                    Some(exports) => {
                        proof {
                            lemma_exported_files(sym_map@, export_views(exports@), idx, 0);
                        }
                        match index_exports(&mut sym_map, exports, idx) {
                            Some(duplicate) => {
                                sym_rename = Some(duplicate);
                            },
                            None => {},
                        }
                    },
                    None => {},
                }
            }
            i += 1;
        }
        match sym_rename {
            Some((name, sym)) => Err(
                PassError {
                    input: None,
                    error: LinkError::DuplicateSymbol {
                        name,
                        file: sources[sym.file as usize].path.clone(),
                    },
                },
            ),
            None => Ok(Pass1 { sources, sym_map, c_header }),
        }
    }
}

} // verus!
