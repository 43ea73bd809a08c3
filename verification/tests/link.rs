use halld::error::{LinkError, PassError};
use halld::pass1::{Pass1, Source};
use halld::pass2::Pass2;
use halld::script::{InputFile, VpkSettings};
use halld::symbols::Sym;
use object::write::{Object, Relocation, StandardSection, Symbol, SymbolSection};
use object::{
    Architecture, BinaryFormat, Endianness, RelocationEncoding, RelocationFlags, RelocationKind,
    SymbolFlags, SymbolKind, SymbolScope,
};

fn entry(file: &str) -> InputFile {
    InputFile {
        file: file.to_string(),
        compressed: false,
        comp_settings: None,
        inreloc: None,
        exreloc: None,
        imports: None,
        exports: None,
    }
}

fn source(entry: InputFile, contents: &[u8]) -> Source {
    let path = entry.file.clone();
    Source { entry, path, contents: contents.to_vec() }
}

fn raw(file: &str, contents: &[u8]) -> Source {
    source(entry(file), contents)
}

/// A MIPS object whose `.data` section holds `data`, with one 32-bit
/// relocation at each given site against the symbol of the given name, and
/// one global definition for each name in `globals`.
fn object_with(data: &[u8], relocs: &[(u64, &str)], globals: &[(&str, u64)]) -> Vec<u8> {
    let mut obj = Object::new(BinaryFormat::Elf, Architecture::Mips, Endianness::Big);
    let sec = obj.section_id(StandardSection::Data);
    obj.set_section_data(sec, data.to_vec(), 4);
    for (name, value) in globals {
        obj.add_symbol(Symbol {
            name: name.as_bytes().to_vec(),
            value: *value,
            size: 0,
            kind: SymbolKind::Label,
            scope: SymbolScope::Dynamic,
            weak: false,
            section: SymbolSection::Section(sec),
            flags: SymbolFlags::None,
        });
    }
    for (site, name) in relocs {
        let symbol = if *name == ".data" {
            obj.add_symbol(Symbol {
                name: b".data".to_vec(),
                value: 0,
                size: 0,
                kind: SymbolKind::Label,
                scope: SymbolScope::Compilation,
                weak: false,
                section: SymbolSection::Section(sec),
                flags: SymbolFlags::None,
            })
        } else {
            obj.add_symbol(Symbol {
                name: name.as_bytes().to_vec(),
                value: 0,
                size: 0,
                kind: SymbolKind::Unknown,
                scope: SymbolScope::Unknown,
                weak: false,
                section: SymbolSection::Undefined,
                flags: SymbolFlags::None,
            })
        };
        obj.add_relocation(
            sec,
            Relocation {
                offset: *site,
                symbol,
                addend: 0,
                flags: RelocationFlags::Generic {
                    kind: RelocationKind::Absolute,
                    encoding: RelocationEncoding::Generic,
                    size: 32,
                },
            },
        )
        .unwrap();
    }
    obj.write().unwrap()
}

fn link(sources: Vec<Source>) -> Result<Pass2, PassError> {
    Pass2::run(Pass1::run(sources)?)
}

#[test]
fn single_raw_file() {
    let out = link(vec![raw("a.bin", &[0xDE, 0xAD, 0xBE, 0xEF])]).unwrap();
    assert_eq!(out.data, vec![0xDE, 0xAD, 0xBE, 0xEF]);
    assert_eq!(
        out.table,
        vec![
            0x00, 0x00, 0x00, 0x00, 0xFF, 0xFF, 0x00, 0x01, 0xFF, 0xFF, 0x00, 0x01, //
            0x00, 0x00, 0x00, 0x04, 0x00, 0x00, 0x00, 0x00, 0x00, 0x00, 0x00, 0x00,
        ]
    );
    assert_eq!(out.inputs, vec!["a.bin".to_string()]);
    assert_eq!(out.c_header, vec![("RLD_FID_A".to_string(), 0)]);
}

#[test]
fn two_raw_files_are_padded() {
    let out = link(vec![raw("a.bin", &[0x01]), raw("b.bin", &[0x02, 0x03])]).unwrap();
    assert_eq!(out.data, vec![0x01, 0, 0, 0, 0x02, 0x03, 0, 0]);
    assert_eq!(
        out.table,
        vec![
            0, 0, 0, 0, 0xFF, 0xFF, 0, 1, 0xFF, 0xFF, 0, 1, //
            0, 0, 0, 4, 0xFF, 0xFF, 0, 1, 0xFF, 0xFF, 0, 1, //
            0, 0, 0, 8, 0, 0, 0, 0, 0, 0, 0, 0,
        ]
    );
}

#[test]
fn empty_script_gives_only_the_terminator() {
    let out = link(Vec::new()).unwrap();
    assert!(out.data.is_empty());
    assert_eq!(out.table, vec![0u8; 12]);
    assert!(out.c_header.is_empty());
    assert!(out.inputs.is_empty());
}

#[test]
fn compressed_raw_file_sets_the_flag() {
    let contents: Vec<u8> = (0..64u32).map(|i| (i % 4) as u8).collect();
    let mut e = entry("a.bin");
    e.compressed = true;
    e.comp_settings = Some(VpkSettings { method: Some(0), offsets: None, lengths: None });
    let out = link(vec![source(e, &contents)]).unwrap();
    assert_eq!(&out.table[0..4], &[0x80, 0x00, 0x00, 0x00]);
    // the size is that of the file, the stored size that of the payload
    assert_eq!(&out.table[10..12], &[0x00, 0x10]);
    let rom_size = out.data.len();
    assert_eq!(rom_size % 4, 0);
    assert_eq!(&out.table[6..8], &((rom_size / 4) as u16).to_be_bytes());
    assert_eq!(&out.table[12..16], &(rom_size as u32).to_be_bytes());
    // the payload is a vpk0 file that decodes to the input
    assert_eq!(&out.data[0..4], b"vpk0");
    assert_eq!(&out.data[4..8], &[0, 0, 0, 64]);
    assert_eq!(out.data[8], 0);
    assert_eq!(vpk0::decode_bytes(&out.data).unwrap(), contents);
}

#[test]
fn two_sample_compression_is_marked_in_the_header() {
    let contents: Vec<u8> = (0..200u32).map(|i| (i % 7) as u8).collect();
    let mut e = entry("a.bin");
    e.compressed = true;
    e.comp_settings = Some(VpkSettings { method: Some(1), offsets: None, lengths: None });
    let out = link(vec![source(e, &contents)]).unwrap();
    assert_eq!(out.data[8], 1);
    assert_eq!(vpk0::decode_bytes(&out.data).unwrap(), contents);
}

#[test]
fn compression_method_out_of_range_is_bad_config() {
    let mut e = entry("a.bin");
    e.compressed = true;
    e.comp_settings = Some(VpkSettings { method: Some(2), offsets: None, lengths: None });
    assert_eq!(link(vec![source(e, &[1, 2, 3, 4])]).err().map(|e| e.error), Some(LinkError::BadConfig));
}

#[test]
fn object_with_internal_relocation() {
    let data = [0, 0, 0, 8, 0, 0, 0, 0, 0xAA, 0xBB, 0xCC, 0xDD];
    let obj = object_with(&data, &[(0, ".data")], &[]);
    let out = link(vec![raw("a.o", &obj)]).unwrap();
    assert_eq!(out.data, vec![0xFF, 0xFF, 0x00, 0x02, 0, 0, 0, 0, 0xAA, 0xBB, 0xCC, 0xDD]);
    assert_eq!(
        &out.table[0..12],
        &[0, 0, 0, 0, 0x00, 0x00, 0x00, 0x03, 0xFF, 0xFF, 0x00, 0x03]
    );
}

#[test]
fn object_with_external_relocation() {
    let data = [0x11, 0x11, 0x11, 0x11, 0, 0, 0, 0];
    let referring = object_with(&data, &[(4, "target")], &[]);
    let defining = object_with(&[0; 0x24], &[], &[("target", 0x20)]);
    let out = link(vec![
        raw("a.o", &referring),
        raw("b.bin", &[5, 6, 7, 8]),
        raw("c.bin", &[9, 10, 11, 12]),
        raw("d.o", &defining),
    ])
    .unwrap();
    assert_eq!(out.symbols.get("target"), Some(Sym { addr: 0x20, file: 3 }));
    // the site holds the end of the chain and the target in words
    assert_eq!(&out.data[0..8], &[0x11, 0x11, 0x11, 0x11, 0xFF, 0xFF, 0x00, 0x08]);
    // the trailer names input 3, padded to four bytes
    assert_eq!(&out.data[8..12], &[0x00, 0x03, 0x00, 0x00]);
    assert_eq!(&out.data[12..16], &[5, 6, 7, 8]);
    assert_eq!(&out.table[0..12], &[0, 0, 0, 0, 0xFF, 0xFF, 0x00, 0x02, 0x00, 0x01, 0x00, 0x02]);
    // the next file starts behind the trailer
    assert_eq!(&out.table[12..16], &[0, 0, 0, 12]);
}

#[test]
fn reference_in_a_later_object_replaces_the_definition() {
    let mut defining = entry("d.bin");
    defining.exports = Some(vec![("target".to_string(), 0x20)]);
    let referring = object_with(&[0; 8], &[(0, "target")], &[]);
    let pass = Pass1::run(vec![source(defining, &[0; 4]), raw("e.o", &referring)]).unwrap();
    assert_eq!(pass.sym_map.get("target"), Some(Sym { addr: 0, file: 1 }));
    assert_eq!(pass.sym_map.len(), 1);
}

#[test]
fn export_of_a_name_that_an_object_refers_to_is_a_duplicate() {
    let mut defining = entry("d.bin");
    defining.exports = Some(vec![("target".to_string(), 0x20)]);
    let referring = object_with(&[0; 8], &[(0, "target")], &[]);
    let err = Pass1::run(vec![raw("e.o", &referring), source(defining, &[0; 4])]).err().map(|e| e.error);
    assert_eq!(
        err,
        Some(LinkError::DuplicateSymbol { name: "target".to_string(), file: "e.o".to_string() })
    );
}

#[test]
fn duplicate_symbol_across_raw_exports() {
    let mut first = entry("first.bin");
    first.exports = Some(vec![("FOO".to_string(), 0x10)]);
    let mut second = entry("second.bin");
    second.exports = Some(vec![("FOO".to_string(), 0x20)]);
    let mut found = source(first, &[0; 4]);
    found.path = "assets/first.bin".to_string();
    let err = Pass1::run(vec![found, source(second, &[0; 4])]).err();
    assert_eq!(
        err,
        Some(PassError {
            input: None,
            error: LinkError::DuplicateSymbol {
                name: "FOO".to_string(),
                file: "assets/first.bin".to_string()
            }
        })
    );
}

#[test]
fn object_symbols_are_indexed() {
    let obj = object_with(&[0; 8], &[], &[("alpha", 0), ("beta", 4)]);
    let pass = Pass1::run(vec![raw("x.bin", &[0; 4]), raw("syms.o", &obj)]).unwrap();
    assert_eq!(pass.sym_map.get("alpha"), Some(Sym { addr: 0, file: 1 }));
    assert_eq!(pass.sym_map.get("beta"), Some(Sym { addr: 4, file: 1 }));
    assert_eq!(pass.sym_map.get("gamma"), None);
    assert_eq!(pass.sym_map.len(), 2);
}

/// A MIPS object with one relocation at site 0 against a symbol that is
/// local to the object and not the section's own.
fn object_with_local_target() -> Vec<u8> {
    let mut obj = Object::new(BinaryFormat::Elf, Architecture::Mips, Endianness::Big);
    let sec = obj.section_id(StandardSection::Data);
    obj.set_section_data(sec, vec![0; 8], 4);
    let symbol = obj.add_symbol(Symbol {
        name: b"nowhere".to_vec(),
        value: 4,
        size: 0,
        kind: SymbolKind::Label,
        scope: SymbolScope::Compilation,
        weak: false,
        section: SymbolSection::Section(sec),
        flags: SymbolFlags::None,
    });
    obj.add_relocation(
        sec,
        Relocation {
            offset: 0,
            symbol,
            addend: 0,
            flags: RelocationFlags::Generic {
                kind: RelocationKind::Absolute,
                encoding: RelocationEncoding::Generic,
                size: 32,
            },
        },
    )
    .unwrap();
    obj.write().unwrap()
}

#[test]
fn unresolved_symbol_fails_the_second_pass() {
    assert_eq!(
        link(vec![raw("a.o", &object_with_local_target())]).err().map(|e| e.error),
        Some(LinkError::UnresolvedSymbol("nowhere".to_string()))
    );
}

#[test]
fn bytes_that_are_no_object_fail_to_parse() {
    assert_eq!(Pass1::run(vec![raw("a.o", &[1, 2, 3])]).err().map(|e| e.error), Some(LinkError::ObjectParse));
}

#[test]
fn raw_file_with_imports_gets_a_trailer() {
    let mut e = entry("a.bin");
    e.imports = Some(vec![2, 0x0105, 7]);
    e.inreloc = Some(4);
    e.exreloc = Some(0);
    let out = link(vec![source(e, &[1, 2, 3, 4, 5]), raw("b.bin", &[9])]).unwrap();
    assert_eq!(
        out.data,
        vec![1, 2, 3, 4, 5, 0, 0, 0, 0, 2, 1, 5, 0, 7, 0, 0, 9, 0, 0, 0]
    );
    assert_eq!(&out.table[0..12], &[0, 0, 0, 0, 0x00, 0x01, 0x00, 0x02, 0x00, 0x00, 0x00, 0x02]);
    assert_eq!(&out.table[12..16], &[0, 0, 0, 16]);
    assert_eq!(&out.table[24..28], &[0, 0, 0, 20]);
}

#[test]
fn raw_file_with_an_empty_import_list_gets_no_trailer() {
    let mut e = entry("a.bin");
    e.imports = Some(Vec::new());
    let out = link(vec![source(e, &[1, 2, 3, 4]), raw("b.bin", &[9, 9, 9, 9])]).unwrap();
    assert_eq!(out.data, vec![1, 2, 3, 4, 9, 9, 9, 9]);
    assert_eq!(&out.table[12..16], &[0, 0, 0, 4]);
}

#[test]
fn file_of_the_largest_size_that_fits() {
    let out = link(vec![raw("big.bin", &vec![0x5A; 262140])]).unwrap();
    assert_eq!(&out.table[0..12], &[0, 0, 0, 0, 0xFF, 0xFF, 0xFF, 0xFF, 0xFF, 0xFF, 0xFF, 0xFF]);
    assert_eq!(&out.table[12..16], &[0x00, 0x03, 0xFF, 0xFC]);
    assert_eq!(out.table.len(), 24);
    // one byte less is padded to the same size
    let padded = link(vec![raw("big.bin", &vec![0x5A; 262137])]).unwrap();
    assert_eq!(&padded.table[10..12], &[0xFF, 0xFF]);
    assert_eq!(padded.data.len(), 262140);
}

#[test]
fn file_one_word_too_large_overflows() {
    assert_eq!(
        link(vec![raw("big.bin", &vec![0x5A; 262144])]).err().map(|e| e.error),
        Some(LinkError::Overflow(262144))
    );
    assert_eq!(
        link(vec![raw("big.bin", &vec![0x5A; 262141])]).err().map(|e| e.error),
        Some(LinkError::Overflow(262144))
    );
}

#[test]
fn relocation_start_that_is_not_aligned_fails() {
    let mut e = entry("a.bin");
    e.inreloc = Some(6);
    assert_eq!(link(vec![source(e, &[0; 8])]).err().map(|e| e.error), Some(LinkError::Misaligned(6)));
}

#[test]
fn table_has_twelve_bytes_for_each_file_and_the_terminator() {
    let sources: Vec<Source> =
        (0..5u8).map(|i| raw(&format!("f{}.bin", i), &vec![i; i as usize * 3])).collect();
    let out = link(sources).unwrap();
    assert_eq!(out.table.len(), 6 * 12);
    let mut last = 0u32;
    for i in 0..5 {
        let word = u32::from_be_bytes(out.table[12 * i..12 * i + 4].try_into().unwrap());
        let offset = word & 0x7FFF_FFFF;
        assert_eq!(offset % 4, 0);
        assert!(offset >= last);
        assert!(offset as usize <= out.data.len());
        last = offset;
    }
    let end = u32::from_be_bytes(out.table[60..64].try_into().unwrap());
    assert_eq!(end as usize, out.data.len());
    assert_eq!(&out.table[64..72], &[0u8; 8]);
}

#[test]
fn linking_again_gives_the_same_bytes() {
    let data = [0, 0, 0, 8, 0, 0, 0, 0, 0, 0, 0, 0];
    let obj = object_with(&data, &[(0, ".data"), (4, "ext")], &[("ext", 8)]);
    let make = || {
        let mut e = entry("b.bin");
        e.imports = Some(vec![0]);
        vec![raw("a.o", &obj), source(e, &[1, 2, 3]), raw("c.bin", &[4; 9])]
    };
    let first = link(make()).unwrap();
    let second = link(make()).unwrap();
    assert_eq!(first.table, second.table);
    assert_eq!(first.data, second.data);
}

#[test]
fn more_inputs_than_sixteen_bits_count_overflow() {
    let sources: Vec<Source> = (0..65537).map(|_| raw("x.bin", &[])).collect();
    assert_eq!(Pass1::run(sources).err().map(|e| e.error), Some(LinkError::Overflow(65536)));
    let most: Vec<Source> = (0..65536).map(|_| raw("x.bin", &[])).collect();
    let pass = Pass1::run(most).unwrap();
    assert_eq!(pass.c_header.len(), 65536);
    assert_eq!(pass.c_header[65535], ("RLD_FID_X".to_string(), 65535));
}

#[test]
fn header_names_come_from_the_path_of_the_script() {
    let mut found = raw("gfx/title.bin", &[1]);
    found.path = "assets/en/gfx/title.bin".to_string();
    let pass = Pass1::run(vec![found, raw("snd/Intro.o.bin", &[2])]).unwrap();
    assert_eq!(
        pass.c_header,
        vec![("RLD_FID_GFX_TITLE".to_string(), 0), ("RLD_FID_SND_INTRO.O".to_string(), 1)]
    );
    let out = Pass2::run(pass).unwrap();
    assert_eq!(
        out.inputs,
        vec!["assets/en/gfx/title.bin".to_string(), "snd/Intro.o.bin".to_string()]
    );
}

#[test]
fn the_place_where_a_file_was_found_decides_whether_it_is_an_object() {
    let mut found = raw("thing.o", &[1, 2, 3]);
    found.path = "thing.bin".to_string();
    let out = link(vec![found]).unwrap();
    assert_eq!(out.data, vec![1, 2, 3, 0]);
}

#[test]
fn object_without_a_data_section_is_refused() {
    let mut obj = Object::new(BinaryFormat::Elf, Architecture::Mips, Endianness::Big);
    let text = obj.section_id(StandardSection::Text);
    obj.set_section_data(text, vec![0; 4], 4);
    let bytes = obj.write().unwrap();
    assert_eq!(link(vec![raw("a.o", &bytes)]).err().map(|e| e.error), Some(LinkError::MissingDataSection));
}

#[test]
fn later_duplicate_is_the_one_reported() {
    let mut a = entry("a.bin");
    a.exports = Some(vec![("ONE".to_string(), 0), ("TWO".to_string(), 4)]);
    let mut b = entry("b.bin");
    b.exports = Some(vec![("ONE".to_string(), 8), ("NEVER".to_string(), 12)]);
    let mut c = entry("c.bin");
    c.exports = Some(vec![("TWO".to_string(), 16)]);
    let err = Pass1::run(vec![source(a, &[]), source(b, &[]), source(c, &[])]).err().map(|e| e.error);
    assert_eq!(
        err,
        Some(LinkError::DuplicateSymbol { name: "TWO".to_string(), file: "a.bin".to_string() })
    );
}

#[test]
fn failure_names_the_input_at_which_a_pass_stopped() {
    let first = Pass1::run(vec![raw("a.bin", &[1]), raw("b.o", &[1, 2, 3]), raw("c.o", &[])]).err();
    assert_eq!(first, Some(PassError { input: Some(1), error: LinkError::ObjectParse }));
    let mut odd = entry("c.bin");
    odd.exreloc = Some(2);
    let second = link(vec![raw("a.bin", &[1]), raw("b.bin", &[2]), source(odd, &[3])]).err();
    assert_eq!(second, Some(PassError { input: Some(2), error: LinkError::Misaligned(2) }));
}
