use halld::error::LinkError;
use halld::paths::{
    extension_is_object, fmt_filename, header_name_from_parts, is_object, locate_file,
    search_candidates, PathPart,
};

#[test]
fn object_files_end_in_dot_o() {
    assert!(is_object("a.o"));
    assert!(is_object("dir/sub/thing.o"));
    assert!(is_object("archive.tar.o"));
    assert!(!is_object("a.O"));
    assert!(!is_object("a.obj"));
    assert!(!is_object("a.bin"));
    assert!(!is_object("o"));
    assert!(!is_object(".o"));
    assert!(!is_object("dir.o/file"));
    assert!(!is_object(""));
}

#[test]
fn extension_is_compared_exactly() {
    assert!(extension_is_object(Some("o")));
    assert!(!extension_is_object(Some("O")));
    assert!(!extension_is_object(Some("oo")));
    assert!(!extension_is_object(Some("")));
    assert!(!extension_is_object(None));
}

#[test]
fn header_name_of_a_bare_file() {
    assert_eq!(fmt_filename("a.bin"), "RLD_FID_A");
    assert_eq!(fmt_filename("logo"), "RLD_FID_LOGO");
    assert_eq!(fmt_filename("move_set.v2.bin"), "RLD_FID_MOVE_SET.V2");
}

#[test]
fn header_name_takes_in_the_directories() {
    assert_eq!(fmt_filename("dir/sub/file.ext"), "RLD_FID_DIR_SUB_FILE");
    assert_eq!(fmt_filename("Fighter/mario/main.o"), "RLD_FID_FIGHTER_MARIO_MAIN");
}

#[test]
fn header_name_skips_what_is_no_directory_name() {
    assert_eq!(fmt_filename("./a/b.bin"), "RLD_FID_A_B");
    assert_eq!(fmt_filename("../a/b.bin"), "RLD_FID_A_B");
    assert_eq!(fmt_filename("/abs/x.o"), "RLD_FID_ABS_X");
}

#[test]
fn header_name_without_parent_or_stem() {
    assert_eq!(fmt_filename(""), "RLD_FID");
    assert_eq!(fmt_filename(".."), "RLD_FID");
    assert_eq!(fmt_filename("/"), "RLD_FID");
}

#[test]
fn header_name_leaves_other_characters_alone() {
    assert_eq!(fmt_filename("été/ça-1.bin"), "RLD_FID_éTé_çA-1");
}

#[test]
fn header_name_from_given_parts() {
    let parts = vec![
        PathPart::RootDir,
        PathPart::Normal("usr".to_string()),
        PathPart::CurDir,
        PathPart::ParentDir,
        PathPart::Prefix,
        PathPart::Normal("share".to_string()),
    ];
    assert_eq!(header_name_from_parts(&parts, Some("file")), "RLD_FID_USR_SHARE_FILE");
    assert_eq!(header_name_from_parts(&parts, None), "RLD_FID_USR_SHARE");
    assert_eq!(header_name_from_parts(&Vec::new(), Some("z9")), "RLD_FID_Z9");
    assert_eq!(header_name_from_parts(&Vec::new(), None), "RLD_FID");
}

#[test]
fn candidates_are_the_file_and_its_joins() {
    let dirs = vec!["assets".to_string(), "build/out/".to_string()];
    assert_eq!(
        search_candidates("img/a.bin", Some(&dirs)),
        vec![
            "img/a.bin".to_string(),
            "assets/img/a.bin".to_string(),
            "build/out/img/a.bin".to_string()
        ]
    );
    assert_eq!(search_candidates("a.bin", None), vec!["a.bin".to_string()]);
    assert_eq!(search_candidates("a.bin", Some(&Vec::new())), vec!["a.bin".to_string()]);
}

#[test]
fn locate_file_keeps_a_file_that_is_there() {
    let dirs = vec!["one".to_string(), "two".to_string()];
    let mut file = "a.bin".to_string();
    assert_eq!(locate_file(&mut file, Some(&dirs), &vec![true, true, true]), Ok(()));
    assert_eq!(file, "a.bin");
}

#[test]
fn locate_file_takes_the_first_directory_that_has_it() {
    let dirs = vec!["one".to_string(), "two".to_string(), "three".to_string()];
    let mut file = "a.bin".to_string();
    assert_eq!(locate_file(&mut file, Some(&dirs), &vec![false, false, true, true]), Ok(()));
    assert_eq!(file, "two/a.bin");
}

#[test]
fn locate_file_fails_where_no_place_has_it() {
    let dirs = vec!["one".to_string()];
    let mut file = "a.bin".to_string();
    assert_eq!(
        locate_file(&mut file, Some(&dirs), &vec![false, false]),
        Err(LinkError::FileNotFound {
            file: "a.bin".to_string(),
            search_dirs: Some(vec!["one".to_string()])
        })
    );
    assert_eq!(file, "a.bin");
    assert_eq!(
        locate_file(&mut file, None, &vec![false]),
        Err(LinkError::FileNotFound { file: "a.bin".to_string(), search_dirs: None })
    );
}

#[test]
fn locate_file_ignores_answers_without_a_place() {
    let mut file = "a.bin".to_string();
    assert_eq!(
        locate_file(&mut file, None, &vec![false, true]),
        Err(LinkError::FileNotFound { file: "a.bin".to_string(), search_dirs: None })
    );
    let dirs = vec!["one".to_string()];
    assert_eq!(
        locate_file(&mut file, Some(&dirs), &vec![]),
        Err(LinkError::FileNotFound { file: "a.bin".to_string(), search_dirs: Some(dirs.clone()) })
    );
    assert_eq!(locate_file(&mut file, Some(&dirs), &vec![false, true, true]), Ok(()));
    assert_eq!(file, "one/a.bin");
}
