use generator_native::opt::{Opt, Options};

#[test]
fn new_options_are_empty() {
    let o = Options::new();
    assert!(!o.has_tag(&Opt::Silent));
    assert!(o.into_vec().is_empty());
}

#[test]
fn insert_and_has_tag() {
    let mut o = Options::new();
    o |= Opt::Silent;
    o |= Opt::Execute("echo hi".to_string());
    assert!(o.has_tag(&Opt::Silent));
    assert!(o.has_tag(&Opt::Execute("echo hi".to_string())));
    assert!(!o.has_tag(&Opt::Execute("echo".to_string())));
    assert!(!o.has_tag(&Opt::NoHash));
}

#[test]
fn insert_is_idempotent() {
    let mut o = Options::new();
    o.insert(Opt::Output("a.h".to_string()));
    o.insert(Opt::Output("a.h".to_string()));
    o.insert(Opt::Silent);
    o.insert(Opt::Silent);
    assert_eq!(o.into_vec(), vec![Opt::Output("a.h".to_string()), Opt::Silent]);
}

#[test]
fn insert_order_does_not_matter_for_equality() {
    let a = Opt::Silent | Opt::NoHash;
    let b = Opt::NoHash | Opt::Silent;
    assert!(a == b);
    let c = Opt::Silent | Opt::Silent;
    assert!(c != a);
    assert_eq!(c.into_vec(), vec![Opt::Silent]);
}

#[test]
fn bitand_tests_membership_and_inclusion() {
    let all = Options::from(vec![Opt::Silent, Opt::NoHash, Opt::Output("x".to_string())]);
    assert!(all.clone() & Opt::NoHash);
    assert!(!(all.clone() & Opt::Output("y".to_string())));
    assert!(all.clone() & (Opt::Silent | Opt::NoHash));
    assert!(!((Opt::Silent | Opt::NoHash) & all.clone()));
    assert!(all.clone() & Options::new());
}

#[test]
fn union_joins_sets() {
    let mut a = Opt::Silent | Opt::NoHash;
    a |= Opt::NoHash | Opt::Output("o".to_string());
    let v: Vec<Opt> = a.into();
    assert_eq!(v, vec![Opt::Silent, Opt::NoHash, Opt::Output("o".to_string())]);
}

#[test]
fn from_vec_deduplicates_and_roundtrips() {
    let o = Options::from(vec![Opt::Silent, Opt::Silent, Opt::NoHash]);
    let v: Vec<Opt> = o.clone().into();
    assert_eq!(v, vec![Opt::Silent, Opt::NoHash]);
    assert!(Options::from(v) == o);
}

#[test]
fn find_returns_first_match() {
    let o = Options::from(vec![
        Opt::Silent,
        Opt::Output("first".to_string()),
        Opt::Output("second".to_string()),
    ]);
    let out = o.find(|opt| match opt {
        Opt::Output(s) => Some(s.as_str()),
        _ => None,
    });
    assert_eq!(out, Some("first"));
    let none: Option<&str> = o.find(|opt| match opt {
        Opt::Execute(s) => Some(s.as_str()),
        _ => None,
    });
    assert_eq!(none, None);
}

#[test]
fn opt_equality_and_clone() {
    assert!(Opt::Execute("a".to_string()) == Opt::Execute("a".to_string()));
    assert!(Opt::Execute("a".to_string()) != Opt::Output("a".to_string()));
    assert!(Opt::Silent != Opt::NoHash);
    let o = Opt::Output("z".to_string());
    assert!(o.clone() == o);
}

#[test]
fn into_iter_yields_each_option_once() {
    let o = Options::from(vec![Opt::NoHash, Opt::Silent, Opt::NoHash]);
    let v: Vec<Opt> = o.into_iter().collect();
    assert_eq!(v, vec![Opt::NoHash, Opt::Silent]);
}
