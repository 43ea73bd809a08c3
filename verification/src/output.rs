//! Packaging the table and the payload as a relocatable object for the
//! target: ELF, 32-bit MIPS, big-endian.
//!
//! The object is built by the `object` crate. It is taken here for a
//! collection of sections and symbols. What goes into it is chosen here, in
//! values of the library's own types; the functions that hand those values
//! to the crate are trusted, and their contracts say what the crate's source
//! shows each call to add.

use crate::pass2::Pass2;
use crate::symbols::Sym;
use vstd::prelude::*;
use vstd::string::StrSliceExecFns;
use vstd::utf8::encode_utf8;

verus! {

#[verifier::external_type_specification]
#[verifier::external_body]
pub struct ExObject<'a>(object::write::Object<'a>);

#[verifier::external_type_specification]
#[verifier::external_body]
pub struct ExSectionId(object::write::SectionId);

/// A file format for objects.
#[derive(Debug, Copy, Clone, PartialEq, Eq, Structural)]
pub enum Format {
    Elf,
    MachO,
}

/// An instruction set.
#[derive(Debug, Copy, Clone, PartialEq, Eq, Structural)]
pub enum Arch {
    Mips,
    Mips64,
}

/// A byte order.
#[derive(Debug, Copy, Clone, PartialEq, Eq, Structural)]
pub enum Endian {
    Big,
    Little,
}

/// What an object is made for.
#[derive(Debug, Copy, Clone, PartialEq, Eq, Structural)]
pub struct Target {
    pub format: Format,
    pub arch: Arch,
    pub endian: Endian,
}

/// The fields of an ELF header that an object's file flags set.
#[derive(Debug, Copy, Clone, PartialEq, Eq, Structural)]
pub struct HeaderFlags {
    pub os_abi: u8,
    pub abi_version: u8,
    pub e_flags: u32,
}

/// The segment that a section is meant for.
#[derive(Debug, Copy, Clone, PartialEq, Eq, Structural)]
pub enum Segment {
    Text,
    Data,
    Debug,
}

/// What a section holds.
#[derive(Debug, Copy, Clone, PartialEq, Eq, Structural)]
pub enum SectionType {
    Text,
    Data,
    ReadOnlyData,
    UninitializedData,
}

/// What a symbol stands for.
#[derive(Debug, Copy, Clone, PartialEq, Eq, Structural)]
pub enum SymbolType {
    Text,
    Data,
}

/// How far a symbol that is defined can be seen.
#[derive(Debug, Copy, Clone, PartialEq, Eq, Structural)]
pub enum Scope {
    /// Within its compilation unit.
    Compilation,
    /// Within the unit that is linked statically.
    Linkage,
    /// By objects that are linked dynamically.
    Dynamic,
}

/// A symbol that is defined in a section, as it is handed to the `object`
/// crate.
#[derive(Debug)]
pub struct OutSymbol {
    pub name: Vec<u8>,
    pub value: u64,
    pub size: u64,
    pub kind: SymbolType,
    pub scope: Scope,
    pub weak: bool,
    /// The section that the symbol lies in.
    pub section: object::write::SectionId,
    /// The ELF fields `st_info` and `st_other`, where the symbol is to have
    /// others than its kind and scope give.
    pub elf: Option<(u8, u8)>,
}

/// A section of an object in specifications.
pub struct WrittenSection {
    /// The name of the section's segment; ELF has none.
    pub segment: Seq<u8>,
    pub name: Seq<u8>,
    pub kind: SectionType,
    pub data: Seq<u8>,
    pub align: u64,
}

/// A symbol of an object in specifications.
pub struct WrittenSymbol {
    pub name: Seq<u8>,
    pub value: u64,
    pub size: u64,
    pub kind: SymbolType,
    pub scope: Scope,
    pub weak: bool,
    /// The position of the symbol's section among the object's sections.
    pub section: int,
    pub elf: Option<(u8, u8)>,
}

impl View for OutSymbol {
    type V = WrittenSymbol;

    open spec fn view(&self) -> WrittenSymbol {
        WrittenSymbol {
            name: self.name@,
            value: self.value,
            size: self.size,
            kind: self.kind,
            scope: self.scope,
            weak: self.weak,
            section: section_index(self.section),
            elf: self.elf,
        }
    }
}

/// The ELF header flag for the MIPS II instruction set.
pub const EF_MIPS_ARCH_MIPS2: u32 = 0x1000_0000;

/// The alignment of both sections.
pub const SECTION_ALIGN: u64 = 4;

/// The size that every symbol is given.
pub const SYMBOL_SIZE: u64 = 4;

/// The name of the section that holds the descriptor table.
pub const TABLE_SECTION: &'static str = ".filetable";

/// The name of the section that holds the payload.
pub const FILES_SECTION: &'static str = ".files";

/// What the output is made for.
pub open spec fn output_target() -> Target {
    Target { format: Format::Elf, arch: Arch::Mips, endian: Endian::Big }
}

/// The header flags of the output: the default ABI, and the MIPS II
/// instruction set.
pub open spec fn output_flags() -> HeaderFlags {
    HeaderFlags { os_abi: 0, abi_version: 0, e_flags: EF_MIPS_ARCH_MIPS2 }
}

/// The sections of an object in the order they were added.
pub uninterp spec fn written_sections(obj: object::write::Object<'static>) -> Seq<WrittenSection>;

/// The symbols of an object in the order they were added, each with its
/// name as the object stores it.
pub uninterp spec fn written_symbols(obj: object::write::Object<'static>) -> Seq<WrittenSymbol>;

/// The ELF fields among the file flags of an object.
pub uninterp spec fn elf_flags(obj: object::write::Object<'static>) -> HeaderFlags;

/// The format, the instruction set and the byte order that an object was
/// made with. With the format go its names for segments, which ELF has
/// none of, and the prefix that it puts before the names of symbols, which
/// ELF has none of either.
pub uninterp spec fn built_for(obj: object::write::Object<'static>) -> Target;

/// The position, among its object's sections, of the section that an
/// identifier stands for.
pub uninterp spec fn section_index(id: object::write::SectionId) -> int;

/// Whether `align` is a power of two.
pub open spec fn power_of_two(align: u64) -> bool {
    align != 0 && align & sub_one(align) == 0
}

/// `align - 1`, for a value that is not 0.
pub open spec fn sub_one(align: u64) -> u64 {
    (align - 1) as u64
}

/// Starts an object.
///
/// Trusted. Calls `object::write::Object::new` with the format, the
/// instruction set and the byte order that `target` names, which gives an
/// object without sections and symbols, and sets the object's public field
/// `flags` to ELF flags with the three values of `flags`.
#[verifier::external_body]
fn new_object(target: Target, flags: HeaderFlags) -> (obj: object::write::Object<'static>)
    ensures
        written_sections(obj) == Seq::<WrittenSection>::empty(),
        written_symbols(obj) == Seq::<WrittenSymbol>::empty(),
        built_for(obj) == target,
        elf_flags(obj) == flags,
{
    let format = match target.format { Format::Elf => object::BinaryFormat::Elf, Format::MachO => object::BinaryFormat::MachO };
    let arch = match target.arch { Arch::Mips => object::Architecture::Mips, Arch::Mips64 => object::Architecture::Mips64 };
    let endian = match target.endian { Endian::Big => object::Endianness::Big, Endian::Little => object::Endianness::Little };
    let mut obj = object::write::Object::new(format, arch, endian);
    obj.flags = object::FileFlags::Elf { os_abi: flags.os_abi, abi_version: flags.abi_version, e_flags: flags.e_flags };
    obj
}

/// Adds an empty section to an ELF object.
///
/// Trusted. Calls `Object::segment_name`, which for ELF is empty whatever
/// the segment, and `Object::add_section`, which appends a section of the
/// given name and kind without bytes and with alignment 1 and returns its
/// position as an identifier. For formats without names for segments
/// `segment_name` does not return, so only ELF is admitted.
#[verifier::external_body]
fn add_section(
    obj: &mut object::write::Object<'static>,
    segment: Segment,
    name: Vec<u8>,
    kind: SectionType,
) -> (id: object::write::SectionId)
    requires
        built_for(*old(obj)).format == Format::Elf,
    ensures
        written_sections(*final(obj)) == written_sections(*old(obj)).push(
            (WrittenSection {
                segment: Seq::empty(),
                name: name@,
                kind,
                data: Seq::empty(),
                align: 1,
            }),
        ),
        section_index(id) == written_sections(*old(obj)).len(),
        written_symbols(*final(obj)) == written_symbols(*old(obj)),
        elf_flags(*final(obj)) == elf_flags(*old(obj)),
        built_for(*final(obj)) == built_for(*old(obj)),
{
    let segment = match segment {
        Segment::Text => object::write::StandardSegment::Text,
        Segment::Data => object::write::StandardSegment::Data,
        Segment::Debug => object::write::StandardSegment::Debug,
    };
    let kind = match kind {
        SectionType::Text => object::SectionKind::Text,
        SectionType::Data => object::SectionKind::Data,
        SectionType::ReadOnlyData => object::SectionKind::ReadOnlyData,
        SectionType::UninitializedData => object::SectionKind::UninitializedData,
    };
    let segment = obj.segment_name(segment).to_vec();
    obj.add_section(segment, name, kind)
}

/// Gives a section its bytes and its alignment.
///
/// Trusted. Calls `Object::set_section_data`, which indexes the sections by
/// the identifier and expects a section that holds data, has no bytes yet,
/// and an alignment that is a power of two.
#[verifier::external_body]
fn set_section_data(
    obj: &mut object::write::Object<'static>,
    section: object::write::SectionId,
    data: Vec<u8>,
    align: u64,
)
    requires
        0 <= section_index(section) < written_sections(*old(obj)).len(),
        written_sections(*old(obj))[section_index(section)].data.len() == 0,
        written_sections(*old(obj))[section_index(section)].kind != SectionType::UninitializedData,
        power_of_two(align),
    ensures
        written_sections(*final(obj)) == written_sections(*old(obj)).update(
            section_index(section),
            (WrittenSection {
                data: data@,
                align,
                ..written_sections(*old(obj))[section_index(section)]
            }),
        ),
        written_symbols(*final(obj)) == written_symbols(*old(obj)),
        elf_flags(*final(obj)) == elf_flags(*old(obj)),
        built_for(*final(obj)) == built_for(*old(obj)),
{
    obj.set_section_data(section, data, align)
}

/// Adds a symbol to an ELF object.
///
/// Trusted. Builds an `object::write::Symbol` from the fields of `symbol`
/// and calls `Object::add_symbol`, which appends it. For a format that puts
/// a prefix before the names of symbols the name would not be stored as it
/// is given, so only ELF is admitted.
#[verifier::external_body]
fn add_symbol(obj: &mut object::write::Object<'static>, symbol: OutSymbol)
    requires
        built_for(*old(obj)).format == Format::Elf,
    ensures
        written_symbols(*final(obj)) == written_symbols(*old(obj)).push(symbol@),
        written_sections(*final(obj)) == written_sections(*old(obj)),
        elf_flags(*final(obj)) == elf_flags(*old(obj)),
        built_for(*final(obj)) == built_for(*old(obj)),
{
    obj.add_symbol(object::write::Symbol {
        name: symbol.name, value: symbol.value, size: symbol.size, weak: symbol.weak,
        kind: match symbol.kind { SymbolType::Text => object::SymbolKind::Text, SymbolType::Data => object::SymbolKind::Data },
        scope: match symbol.scope {
            Scope::Compilation => object::SymbolScope::Compilation,
            Scope::Linkage => object::SymbolScope::Linkage,
            Scope::Dynamic => object::SymbolScope::Dynamic,
        },
        section: object::write::SymbolSection::Section(symbol.section),
        flags: match symbol.elf {
            None => object::SymbolFlags::None,
            Some((st_info, st_other)) => object::SymbolFlags::Elf { st_info, st_other },
        },
    });
}

/// The symbol that the output gets for a name of the index, where the
/// section of the payload is at position `section`: a data symbol of
/// dynamic scope, not weak, with the name as UTF-8, the address as its
/// value and four bytes of size.
pub open spec fn output_symbol(entry: (Seq<char>, Sym), section: int) -> WrittenSymbol {
    WrittenSymbol {
        name: encode_utf8(entry.0),
        value: entry.1.addr as u64,
        size: SYMBOL_SIZE,
        kind: SymbolType::Data,
        scope: Scope::Dynamic,
        weak: false,
        section,
        elf: None,
    }
}

/// The symbols that the output gets for the names of an index, in the
/// order of the index.
pub open spec fn output_symbols(entries: Seq<(Seq<char>, Sym)>, section: int) -> Seq<
    WrittenSymbol,
> {
    Seq::new(entries.len(), |i: int| output_symbol(entries[i], section))
}

/// The two sections of the output: `.filetable` with the table and
/// `.files` with the payload, both sections of data that are aligned to
/// four bytes.
pub open spec fn output_sections(table: Seq<u8>, payload: Seq<u8>) -> Seq<WrittenSection> {
    seq![
        WrittenSection {
            segment: Seq::empty(),
            name: encode_utf8(TABLE_SECTION@),
            kind: SectionType::Data,
            data: table,
            align: SECTION_ALIGN,
        },
        WrittenSection {
            segment: Seq::empty(),
            name: encode_utf8(FILES_SECTION@),
            kind: SectionType::Data,
            data: payload,
            align: SECTION_ALIGN,
        },
    ]
}

/// The value of every symbol of the output is the address that the index
/// has for its name: a multiple of four where the address is one, and the
/// address as it is where it is not.
pub proof fn lemma_symbol_values(entries: Seq<(Seq<char>, Sym)>, section: int, i: int)
    requires
        0 <= i < entries.len(),
    ensures
        output_symbols(entries, section).len() == entries.len(),
        output_symbols(entries, section)[i].name == encode_utf8(entries[i].0),
        output_symbols(entries, section)[i].value == entries[i].1.addr,
        output_symbols(entries, section)[i].value % 4 == entries[i].1.addr % 4,
{
}

/// Describes the symbol for one name of the index: a data symbol of
/// dynamic scope in the section `sec`, four bytes in size, whose value is
/// the address as the index has it.
pub fn create_symbol(sec: object::write::SectionId, name: &String, sym: Sym) -> (r: OutSymbol)
    ensures
        r@ == output_symbol((name@, sym), section_index(sec)),
        r.section == sec,
{
    OutSymbol {
        name: name.as_str().as_bytes_vec(),
        value: sym.addr as u64,
        size: SYMBOL_SIZE,
        kind: SymbolType::Data,
        scope: Scope::Dynamic,
        weak: false,
        section: sec,
        elf: None,
    }
}

/// Builds the output object: for big-endian 32-bit MIPS in ELF, with the
/// flag for MIPS II in the header; the section `.filetable` with the table
/// and the section `.files` with the payload, both sections of data in the
/// data segment, aligned to four bytes; and for every name of the index a
/// data symbol of dynamic scope in `.files` whose value is the name's
/// address.
pub fn create_object(p2: Pass2) -> (obj: object::write::Object<'static>)
    ensures
        built_for(obj) == output_target(),
        elf_flags(obj) == output_flags(),
        written_sections(obj) == output_sections(p2.table@, p2.data@),
        written_symbols(obj) == output_symbols(p2.symbols.entries(), 1),
{
    let mut obj = new_object(
        Target { format: Format::Elf, arch: Arch::Mips, endian: Endian::Big },
        HeaderFlags { os_abi: 0, abi_version: 0, e_flags: EF_MIPS_ARCH_MIPS2 },
    );
    let Pass2 { table, data, symbols, c_header: _, inputs: _ } = p2;
    let tsec = add_section(
        &mut obj,
        Segment::Data,
        TABLE_SECTION.as_bytes_vec(),
        SectionType::Data,
    );
    let fsec = add_section(
        &mut obj,
        Segment::Data,
        FILES_SECTION.as_bytes_vec(),
        SectionType::Data,
    );
    assert(power_of_two(SECTION_ALIGN)) by {
        assert(4u64 & 3u64 == 0) by (bit_vector);
    }
    set_section_data(&mut obj, tsec, table, SECTION_ALIGN);
    set_section_data(&mut obj, fsec, data, SECTION_ALIGN);
    assert(written_sections(obj) =~= output_sections(p2.table@, p2.data@));
    let n = symbols.len();
    let mut i: usize = 0;
    assert(written_symbols(obj) =~= output_symbols(symbols.entries(), 1).take(0));
    while i < n
        invariant
            i <= n,
            n == symbols.entries().len(),
            section_index(fsec) == 1,
            built_for(obj) == output_target(),
            elf_flags(obj) == output_flags(),
            written_sections(obj) == output_sections(p2.table@, p2.data@),
            written_symbols(obj) == output_symbols(symbols.entries(), 1).take(i as int),
        decreases n - i,
    {
        let symbol = create_symbol(fsec, symbols.name_at(i), symbols.sym_at(i));
        add_symbol(&mut obj, symbol);
        assert(written_symbols(obj) =~= output_symbols(symbols.entries(), 1).take(i + 1));
        i += 1;
    }
    assert(output_symbols(symbols.entries(), 1).take(n as int) =~= output_symbols(
        symbols.entries(),
        1,
    ));
    obj
}

} // verus!
