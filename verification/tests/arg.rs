use generator_native::arg::{parse, OperationMode};
use generator_native::opt::Opt;

fn args(a: &[&str]) -> Vec<String> {
    a.iter().map(|s| s.to_string()).collect()
}

fn normal(r: Result<OperationMode, &'static str>) -> (Vec<Opt>, Vec<String>) {
    match r {
        Ok(OperationMode::Normal(o, f)) => (o.into_vec(), f),
        _ => panic!("expected a normal run"),
    }
}

#[test]
fn help_and_version_only_first() {
    assert!(matches!(parse(&args(&["prog", "-h"])), Ok(OperationMode::Help)));
    assert!(matches!(parse(&args(&["prog", "-v"])), Ok(OperationMode::Version(false))));
    assert!(matches!(parse(&args(&["prog", "-V", "x"])), Ok(OperationMode::Version(true))));
    let (o, f) = normal(parse(&args(&["prog", "-s", "-h"])));
    assert_eq!(o, vec![Opt::Silent]);
    assert_eq!(f, vec!["-h".to_string()]);
}

#[test]
fn flags_and_files() {
    let (o, f) = normal(parse(&args(&["prog", "-s", "-e", "cat %location/a", "-o", "out.h", "-u", "a", "b"])));
    assert_eq!(
        o,
        vec![
            Opt::Silent,
            Opt::Execute("cat %location/a".to_string()),
            Opt::Output("out.h".to_string()),
            Opt::NoHash
        ]
    );
    assert_eq!(f, args(&["a", "b"]));
}

#[test]
fn flags_after_first_file_are_files() {
    let (o, f) = normal(parse(&args(&["prog", "a", "-s", "-"])));
    assert!(o.is_empty());
    assert_eq!(f, args(&["a", "-s", "-"]));
}

#[test]
fn dash_stops_flags() {
    let (o, f) = normal(parse(&args(&["prog", "-", "-s", "-e"])));
    assert!(o.is_empty());
    assert_eq!(f, args(&["-s", "-e"]));
}

#[test]
fn missing_arguments_are_errors() {
    assert_eq!(parse(&args(&["prog", "-e"])).err(), Some("-e expects an argument that wasn't given."));
    assert_eq!(parse(&args(&["prog", "-s", "-o"])).err(), Some("-o expects an argument that wasn't given."));
    assert_eq!(parse(&args(&["prog"])).err(), Some("No files specified. For help run with `-h`"));
    assert_eq!(parse(&args(&["prog", "-s", "-u"])).err(), Some("No files specified. For help run with `-h`"));
    assert_eq!(parse(&[]).err(), Some("No files specified. For help run with `-h`"));
}

#[test]
fn repeated_flag_kept_once() {
    let (o, f) = normal(parse(&args(&["prog", "-s", "-s", "-o", "x", "f"])));
    assert_eq!(o, vec![Opt::Silent, Opt::Output("x".to_string())]);
    assert_eq!(f, args(&["f"]));
}
