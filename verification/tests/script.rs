use halld::error::LinkError;
use halld::script::{plan, LinkerConfig, Settings};

fn config(output: Option<&str>, search: Option<Vec<&str>>) -> LinkerConfig {
    LinkerConfig {
        settings: Some(Settings {
            output: output.map(String::from),
            search_dirs: search.map(|dirs| dirs.into_iter().map(String::from).collect()),
        }),
        script: Vec::new(),
    }
}

#[test]
fn output_of_the_command_line_comes_first() {
    let p = plan(config(Some("cfg.o"), None), Some("cli.o".to_string()), None).unwrap();
    assert_eq!(p.output, "cli.o");
    assert_eq!(p.search_dirs, None);
}

#[test]
fn output_of_the_script_is_the_fallback() {
    let p = plan(config(Some("cfg.o"), None), None, None).unwrap();
    assert_eq!(p.output, "cfg.o");
}

#[test]
fn no_output_anywhere_fails() {
    assert_eq!(plan(config(None, Some(vec!["a"])), None, None).err(), Some(LinkError::NoOutput));
    let bare = LinkerConfig { settings: None, script: Vec::new() };
    assert_eq!(plan(bare, None, Some(vec!["x".to_string()])).err(), Some(LinkError::NoOutput));
}

#[test]
fn search_dirs_of_the_command_line_come_before_those_of_the_script() {
    let p = plan(
        config(Some("o"), Some(vec!["c1", "c2"])),
        None,
        Some(vec!["l1".to_string(), "l2".to_string()]),
    )
    .unwrap();
    assert_eq!(
        p.search_dirs,
        Some(vec!["l1".to_string(), "l2".to_string(), "c1".to_string(), "c2".to_string()])
    );
}

#[test]
fn search_dirs_from_one_side_only() {
    let p = plan(config(Some("o"), Some(vec!["c1"])), None, None).unwrap();
    assert_eq!(p.search_dirs, Some(vec!["c1".to_string()]));
    let q = plan(config(Some("o"), None), None, Some(vec!["l1".to_string()])).unwrap();
    assert_eq!(q.search_dirs, Some(vec!["l1".to_string()]));
    let bare = LinkerConfig { settings: None, script: Vec::new() };
    let r = plan(bare, Some("o".to_string()), None).unwrap();
    assert_eq!(r.search_dirs, None);
    assert_eq!(r.output, "o");
}
