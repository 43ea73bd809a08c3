use halld::output::{create_object, create_symbol, Scope, SymbolType};
use halld::pass2::Pass2;
use halld::symbols::{Sym, SymMap};
use object::read::{Object, ObjectSection, ObjectSymbol};
use object::{Architecture, BinaryFormat, FileFlags, SymbolKind};

fn linked() -> Pass2 {
    let mut symbols = SymMap::new();
    symbols.insert("first".to_string(), Sym { addr: 0x20, file: 0 });
    symbols.insert("second".to_string(), Sym { addr: 0x1236, file: 1 });
    Pass2 {
        table: vec![0, 0, 0, 0, 0xFF, 0xFF, 0, 2, 0xFF, 0xFF, 0, 2, 0, 0, 0, 8, 0, 0, 0, 0, 0, 0, 0, 0],
        data: vec![1, 2, 3, 4, 5, 6, 7, 8],
        c_header: vec![("RLD_FID_A".to_string(), 0)],
        symbols,
        inputs: vec!["a.bin".to_string()],
    }
}

#[test]
fn output_is_a_big_endian_mips_elf_with_the_mips2_flag() {
    let bytes = create_object(linked()).write().unwrap();
    let obj = object::read::File::parse(&*bytes).unwrap();
    assert_eq!(obj.format(), BinaryFormat::Elf);
    assert_eq!(obj.architecture(), Architecture::Mips);
    assert!(!obj.is_little_endian());
    assert!(!obj.is_64());
    match obj.flags() {
        FileFlags::Elf { e_flags, .. } => assert_eq!(e_flags, 0x1000_0000),
        other => panic!("no ELF flags: {:?}", other),
    }
}

#[test]
fn output_holds_the_table_and_the_payload() {
    let bytes = create_object(linked()).write().unwrap();
    let obj = object::read::File::parse(&*bytes).unwrap();
    let table = obj.section_by_name(".filetable").unwrap();
    assert_eq!(table.data().unwrap(), &linked().table[..]);
    assert_eq!(table.align(), 4);
    let files = obj.section_by_name(".files").unwrap();
    assert_eq!(files.data().unwrap(), &linked().data[..]);
    assert_eq!(files.align(), 4);
    assert!(table.index().0 < files.index().0);
}

#[test]
fn output_has_a_symbol_for_every_name_of_the_index() {
    let bytes = create_object(linked()).write().unwrap();
    let obj = object::read::File::parse(&*bytes).unwrap();
    let files = obj.section_by_name(".files").unwrap().index();
    let mut found = Vec::new();
    for symbol in obj.symbols() {
        if symbol.kind() == SymbolKind::Data {
            assert_eq!(symbol.size(), 4);
            assert_eq!(symbol.section_index(), Some(files));
            assert!(symbol.is_global());
            found.push((symbol.name().unwrap().to_string(), symbol.address()));
        }
    }
    // values are the addresses of the index, aligned or not
    assert_eq!(found, vec![("first".to_string(), 0x20), ("second".to_string(), 0x1236)]);
}

#[test]
fn output_of_an_empty_link() {
    let empty = Pass2 {
        table: vec![0; 12],
        data: Vec::new(),
        c_header: Vec::new(),
        symbols: SymMap::new(),
        inputs: Vec::new(),
    };
    let bytes = create_object(empty).write().unwrap();
    let obj = object::read::File::parse(&*bytes).unwrap();
    assert_eq!(obj.section_by_name(".filetable").unwrap().data().unwrap(), &[0u8; 12][..]);
    assert_eq!(obj.section_by_name(".files").unwrap().size(), 0);
    assert_eq!(obj.symbols().filter(|s| s.kind() == SymbolKind::Data).count(), 0);
}

#[test]
fn created_symbol_is_a_dynamic_data_symbol_of_four_bytes() {
    let mut obj = object::write::Object::new(
        BinaryFormat::Elf,
        Architecture::Mips,
        object::Endianness::Big,
    );
    let sec = obj.section_id(object::write::StandardSection::Data);
    let symbol = create_symbol(sec, &"gFoo".to_string(), Sym { addr: 0x1236, file: 9 });
    assert_eq!(symbol.name, b"gFoo".to_vec());
    assert_eq!(symbol.value, 0x1236);
    assert_eq!(symbol.size, 4);
    assert_eq!(symbol.kind, SymbolType::Data);
    assert_eq!(symbol.scope, Scope::Dynamic);
    assert!(!symbol.weak);
    assert_eq!(symbol.section, sec);
    assert_eq!(symbol.elf, None);
}

#[test]
fn output_sections_hold_data_and_symbols_are_not_weak() {
    let bytes = create_object(linked()).write().unwrap();
    let obj = object::read::File::parse(&*bytes).unwrap();
    for name in [".filetable", ".files"] {
        assert_eq!(obj.section_by_name(name).unwrap().kind(), object::SectionKind::Data);
    }
    for symbol in obj.symbols().filter(|s| s.kind() == SymbolKind::Data) {
        assert!(!symbol.is_weak());
        assert_eq!(symbol.scope(), object::SymbolScope::Dynamic);
    }
}
