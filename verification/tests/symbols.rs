use halld::symbols::{Sym, SymMap};

#[test]
fn new_index_is_empty() {
    let index = SymMap::new();
    assert_eq!(index.len(), 0);
    assert_eq!(index.get("anything"), None);
}

#[test]
fn insert_defines_and_get_finds() {
    let mut index = SymMap::new();
    assert_eq!(index.insert("alpha".to_string(), Sym { addr: 0x10, file: 0 }), None);
    assert_eq!(index.insert("beta".to_string(), Sym { addr: 0x20, file: 1 }), None);
    assert_eq!(index.len(), 2);
    assert_eq!(index.get("alpha"), Some(Sym { addr: 0x10, file: 0 }));
    assert_eq!(index.get("beta"), Some(Sym { addr: 0x20, file: 1 }));
    assert_eq!(index.get("Alpha"), None);
    assert_eq!(index.get(""), None);
}

#[test]
fn insert_of_a_known_name_replaces_and_returns_the_old_definition() {
    let mut index = SymMap::new();
    index.insert("alpha".to_string(), Sym { addr: 0x10, file: 0 });
    index.insert("beta".to_string(), Sym { addr: 0x20, file: 1 });
    assert_eq!(
        index.insert("alpha".to_string(), Sym { addr: 0x30, file: 2 }),
        Some(Sym { addr: 0x10, file: 0 })
    );
    assert_eq!(index.len(), 2);
    assert_eq!(index.get("alpha"), Some(Sym { addr: 0x30, file: 2 }));
    // the name keeps its place in the order of definition
    assert_eq!(index.name_at(0), "alpha");
    assert_eq!(index.sym_at(0), Sym { addr: 0x30, file: 2 });
    assert_eq!(index.name_at(1), "beta");
    assert_eq!(index.sym_at(1), Sym { addr: 0x20, file: 1 });
}
