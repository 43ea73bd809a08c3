use halld::mkdep::write_make_dep;

#[test]
fn rule_lists_every_input_and_makes_each_a_target() {
    let deps = vec!["a.bin".to_string(), "dir/b.o".to_string()];
    assert_eq!(
        write_make_dep("out.o", &deps),
        "out.o: \\\n  a.bin \\\n  dir/b.o \n\na.bin:\n\ndir/b.o:\n\n"
    );
}

#[test]
fn rule_without_inputs() {
    assert_eq!(write_make_dep("out.o", &Vec::new()), "out.o: \n\n");
}

#[test]
fn rule_with_one_input() {
    assert_eq!(write_make_dep("x", &vec!["y".to_string()]), "x: \\\n  y \n\ny:\n\n");
}
