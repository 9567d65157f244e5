use generator_native::opt::{Opt, Options};
use generator_native::program::{
    attempt_get_name, name_from_component, usage_text, version_text, Settings,
};

#[test]
fn file_names() {
    assert_eq!(attempt_get_name("dir/file.txt"), Ok("file.txt"));
    assert_eq!(attempt_get_name("file.txt"), Ok("file.txt"));
    assert_eq!(attempt_get_name("a/b/"), Ok("b"));
    assert_eq!(attempt_get_name("/"), Err("No filename, are you trying to add a directory?"));
    assert_eq!(attempt_get_name("a/.."), Err("No filename, are you trying to add a directory?"));
}

#[test]
fn component_errors() {
    assert_eq!(name_from_component(Some(Some("x"))), Ok("x"));
    assert_eq!(name_from_component(Some(None)), Err("Invalid unicode in filename"));
    assert_eq!(name_from_component(None), Err("No filename, are you trying to add a directory?"));
}

#[test]
fn settings_defaults() {
    let s = Settings::from_options(&Options::new());
    assert_eq!(s.output, "file.h");
    assert_eq!(s.execute, None);
    assert!(!s.silent);
    assert!(!s.no_hash);
}

#[test]
fn settings_from_flags() {
    let o = Options::from(vec![
        Opt::NoHash,
        Opt::Output("out.h".to_string()),
        Opt::Execute("run".to_string()),
        Opt::Silent,
    ]);
    let s = Settings::from_options(&o);
    assert_eq!(s.output, "out.h");
    assert_eq!(s.execute, Some("run".to_string()));
    assert!(s.silent);
    assert!(s.no_hash);
}

#[test]
fn version_texts() {
    assert_eq!(version_text(false, "1.2.3", "me"), "1.2.3");
    assert_eq!(
        version_text(true, "1.2.3", "me"),
        "sfexec-generator-native verison: 1.2.3\nauthor: me (https://flanchan.moe/)\nlicense: GPL 3.0\n\n"
    );
}

#[test]
fn usage_mentions_program() {
    let u = usage_text("gen", "1", "me");
    assert!(u.starts_with("sfexec-generator-native verison: 1\n"));
    assert!(u.contains("Usage: gen [-s] [-e <exec string>] [-o <output file>] [-u] [-] <files...>\nUsage: gen -h\nUsage: gen -v|-V\n\n"));
    assert!(u.ends_with(" -u\t\tUnchecked mode. Do not compute hashes of inputs.\n"));
}

#[test]
fn file_names_of_nested_paths() {
    assert_eq!(attempt_get_name("dir/sub/file.txt"), Ok("file.txt"));
    assert_eq!(attempt_get_name("dir/"), Ok("dir"));
}
