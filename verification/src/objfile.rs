//! What the linker reads from a relocatable object: its symbols and one
//! section with its relocations, as plain values.
//!
//! Decoding is left to the `object` crate. The two functions that call it are
//! trusted: their contracts name what the crate returns and prove nothing
//! of it.

use object::read::{Object, ObjectSection, ObjectSymbol};
use vstd::prelude::*;

verus! {

#[verifier::external_type_specification]
#[verifier::external_body]
pub struct ExReadError(object::read::Error);

/// What is known of a symbol's kind.
#[derive(Debug, Copy, Clone, PartialEq, Eq, Structural)]
pub enum SymKind {
    /// The object does not say what the symbol is for.
    Unknown,
    /// The symbol is marked as code, data, a section, a file or the like.
    Known,
}

/// One entry of an object's symbol table.
#[derive(Debug, Clone, PartialEq, Eq)]
pub struct ObjSymbol {
    /// The symbol's name, or none where it cannot be read.
    pub name: Option<String>,
    pub address: u64,
    pub kind: SymKind,
    pub global: bool,
}

/// What a relocation points at.
#[derive(Debug, Clone, PartialEq, Eq)]
pub enum RelocTarget {
    /// A symbol, by its name; none where the name cannot be read.
    Symbol(Option<String>),
    /// A section.
    Section,
    /// An absolute address.
    Absolute,
}

/// One relocation of a section.
#[derive(Debug, Clone, PartialEq, Eq)]
pub struct ObjReloc {
    /// Where in the section the site starts.
    pub offset: u64,
    /// The width of the site in bits.
    pub size: u8,
    pub target: RelocTarget,
}

/// A section's bytes and its relocations in the order of the object.
#[derive(Debug, Clone, PartialEq, Eq)]
pub struct ObjSection {
    pub data: Vec<u8>,
    pub relocs: Vec<ObjReloc>,
}

/// [`ObjSymbol`] in specifications.
pub struct SymbolView {
    pub name: Option<Seq<char>>,
    pub address: u64,
    pub kind: SymKind,
    pub global: bool,
}

/// [`RelocTarget`] in specifications.
pub enum TargetView {
    Symbol(Option<Seq<char>>),
    Section,
    Absolute,
}

/// [`ObjReloc`] in specifications.
pub struct RelocView {
    pub offset: u64,
    pub size: u8,
    pub target: TargetView,
}

/// [`ObjSection`] in specifications.
pub struct SectionView {
    pub data: Seq<u8>,
    pub relocs: Seq<RelocView>,
}

/// A text that may be missing, as a sequence of characters.
pub open spec fn text_view(s: Option<String>) -> Option<Seq<char>> {
    match s {
        Some(s) => Some(s@),
        None => None,
    }
}

impl View for ObjSymbol {
    type V = SymbolView;

    open spec fn view(&self) -> SymbolView {
        SymbolView {
            name: text_view(self.name),
            address: self.address,
            kind: self.kind,
            global: self.global,
        }
    }
}

impl View for RelocTarget {
    type V = TargetView;

    open spec fn view(&self) -> TargetView {
        match self {
            RelocTarget::Symbol(name) => TargetView::Symbol(text_view(*name)),
            RelocTarget::Section => TargetView::Section,
            RelocTarget::Absolute => TargetView::Absolute,
        }
    }
}

impl View for ObjReloc {
    type V = RelocView;

    open spec fn view(&self) -> RelocView {
        RelocView { offset: self.offset, size: self.size, target: self.target@ }
    }
}

impl View for ObjSection {
    type V = SectionView;

    open spec fn view(&self) -> SectionView {
        SectionView { data: self.data@, relocs: reloc_views(self.relocs@) }
    }
}

/// The symbols of a list, each as specifications speak of it.
pub open spec fn symbol_views(symbols: Seq<ObjSymbol>) -> Seq<SymbolView> {
    Seq::new(symbols.len(), |i: int| symbols[i]@)
}

/// The relocations of a list, each as specifications speak of it.
pub open spec fn reloc_views(relocs: Seq<ObjReloc>) -> Seq<RelocView> {
    Seq::new(relocs.len(), |i: int| relocs[i]@)
}

/// The symbol table that the `object` crate reads from `bytes`, in the
/// table's order; none where it cannot decode `bytes` as an object.
pub uninterp spec fn object_symbols(bytes: Seq<u8>) -> Option<Seq<SymbolView>>;

/// The section called `name` that the `object` crate reads from `bytes`:
/// none where it cannot decode `bytes` or the section's bytes, `Some(None)`
/// where the object has no such section.
pub uninterp spec fn object_section(bytes: Seq<u8>, name: Seq<char>) -> Option<Option<SectionView>>;

/// Reads the symbol table of an object.
///
/// Trusted. Calls `object::read::File::parse` and walks `Object::symbols`;
/// of each symbol it keeps `name` (none where that fails), `address`,
/// `is_global`, and whether `kind` is `SymbolKind::Unknown`. The contract
/// only gives the outcome its name, [`object_symbols`].
#[verifier::external_body]
pub(crate) fn read_symbols(bytes: &[u8]) -> (r: Result<Vec<ObjSymbol>, object::read::Error>)
    ensures
        match r {
            Ok(symbols) => object_symbols(bytes@) == Some(symbol_views(symbols@)),
            Err(_) => object_symbols(bytes@) is None,
        },
{
    let obj = object::read::File::parse(bytes)?;
    Ok(obj.symbols().map(|s| ObjSymbol {
        name: s.name().ok().map(String::from),
        address: s.address(),
        kind: match s.kind() {
            object::SymbolKind::Unknown => SymKind::Unknown,
            _ => SymKind::Known,
        },
        global: s.is_global(),
    }).collect())
}

/// Reads one section of an object, with its relocations.
///
/// Trusted. Calls `object::read::File::parse`, `Object::section_by_name`,
/// `ObjectSection::relocations` and `ObjectSection::data`; of each relocation
/// it keeps the offset, `size` and `target`, the target symbol looked up with
/// `Object::symbol_by_index` and named by `ObjectSymbol::name` (none where
/// either fails). The contract only gives the outcome its name,
/// [`object_section`].
#[verifier::external_body]
pub(crate) fn read_section(bytes: &[u8], name: &str) -> (r: Result<
    Option<ObjSection>,
    object::read::Error,
>)
    ensures
        match r {
            Ok(Some(section)) => object_section(bytes@, name@) == Some(Some(section@)),
            Ok(None) => object_section(bytes@, name@) == Some(None::<SectionView>),
            Err(_) => object_section(bytes@, name@) is None,
        },
{
    let obj = object::read::File::parse(bytes)?;
    let Some(sec) = obj.section_by_name(name) else { return Ok(None) };
    let relocs = sec.relocations().map(|(offset, r)| ObjReloc {
        offset,
        size: r.size(),
        target: match r.target() {
            object::RelocationTarget::Symbol(i) => RelocTarget::Symbol(
                obj.symbol_by_index(i).and_then(|s| s.name()).ok().map(String::from)),
            object::RelocationTarget::Section(_) => RelocTarget::Section,
            _ => RelocTarget::Absolute,
        },
    }).collect();
    Ok(Some(ObjSection { data: sec.data()?.to_vec(), relocs }))
}

} // verus!
