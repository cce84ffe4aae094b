use regex::Regex;
use ssh_bookmarker::{create_conditions, Condition, Conditions, ErrorKind, Host};

fn pattern(cond: &Condition) -> Option<&str> {
    match cond {
        Condition::Include(re) => Some(re.as_str()),
        Condition::Exclude(re) => Some(re.as_str()),
        Condition::Everything => None,
    }
}

#[test]
fn include_spec_is_split_at_first_comma() {
    let (path, cond) = Condition::include_from("/etc/ssh/ssh_config,^web[0-9]+,x$").unwrap();
    assert_eq!(path, "/etc/ssh/ssh_config");
    assert!(matches!(cond, Condition::Include(_)));
    assert_eq!(pattern(&cond), Some("^web[0-9]+,x$"));
}

#[test]
fn exclude_spec_is_split_at_first_comma() {
    let (path, cond) = Condition::exclude_from("known_hosts,\\.internal$").unwrap();
    assert_eq!(path, "known_hosts");
    assert!(matches!(cond, Condition::Exclude(_)));
    assert_eq!(pattern(&cond), Some("\\.internal$"));
}

#[test]
fn spec_with_empty_path_is_accepted() {
    let (path, cond) = Condition::include_from(",x").unwrap();
    assert_eq!(path, "");
    assert_eq!(pattern(&cond), Some("x"));
}

#[test]
fn spec_without_comma_is_rejected() {
    for spec in ["", "path", "path-without-pattern"] {
        let expected = ErrorKind::ConditionFormat(spec.to_string());
        assert_eq!(Condition::include_from(spec).err(), Some(expected.clone()));
        assert_eq!(Condition::exclude_from(spec).err(), Some(expected));
    }
}

#[test]
fn spec_with_empty_pattern_is_rejected() {
    for spec in [",", "path,"] {
        let expected = ErrorKind::ConditionFormat(spec.to_string());
        assert_eq!(Condition::include_from(spec).err(), Some(expected.clone()));
        assert_eq!(Condition::exclude_from(spec).err(), Some(expected));
    }
}

#[test]
fn spec_with_bad_pattern_is_rejected() {
    for spec in ["path,(", "path,a{2,1}", "path,[z-a]"] {
        let expected = ErrorKind::ConditionFormat(spec.to_string());
        assert_eq!(Condition::include_from(spec).err(), Some(expected.clone()));
        assert_eq!(Condition::exclude_from(spec).err(), Some(expected));
    }
}

#[test]
fn rule_from_compiled_pattern() {
    let ok = Condition::from_compiled("p,a+", true, Regex::new("a+"));
    let (path, cond) = ok.unwrap();
    assert_eq!(path, "p");
    assert!(matches!(cond, Condition::Include(_)));
    let (_, cond) = Condition::from_compiled("p,a+", false, Regex::new("a+")).unwrap();
    assert!(matches!(cond, Condition::Exclude(_)));
    assert_eq!(
        Condition::from_compiled("p,(", true, Regex::new("(")).err(),
        Some(ErrorKind::ConditionFormat("p,(".to_string()))
    );
    assert_eq!(
        Condition::from_compiled("p", true, Regex::new("a")).err(),
        Some(ErrorKind::ConditionFormat("p".to_string()))
    );
    assert_eq!(
        Condition::from_compiled("p,", false, Regex::new("")).err(),
        Some(ErrorKind::ConditionFormat("p,".to_string()))
    );
}

#[test]
fn rules_apply_to_their_own_file_only() {
    let mut conds = Conditions::new();
    conds.add("a".to_string(), Condition::Exclude(Regex::new("^x").unwrap()));
    assert!(!conds.eligible(&Host::named("xyz", "a")));
    assert!(conds.eligible(&Host::named("xyz", "b")));
    assert!(conds.eligible(&Host::named("xyz", "a/")));
    assert!(conds.eligible(&Host::named("yz", "a")));
}

#[test]
fn everything_rule_lets_every_host_in() {
    let mut conds = Conditions::new();
    conds.add("a".to_string(), Condition::Everything);
    conds.add("a".to_string(), Condition::Exclude(Regex::new(".").unwrap()));
    assert!(conds.eligible(&Host::named("xyz", "a")));
}

#[test]
fn rules_are_consulted_in_the_order_added() {
    let host = Host::named("db1.example.org", "a");
    let mut first_in = Conditions::new();
    first_in.add("a".to_string(), Condition::Include(Regex::new("^db").unwrap()));
    first_in.add("a".to_string(), Condition::Exclude(Regex::new("example").unwrap()));
    assert!(first_in.eligible(&host));

    let mut first_out = Conditions::new();
    first_out.add("a".to_string(), Condition::Exclude(Regex::new("example").unwrap()));
    first_out.add("a".to_string(), Condition::Include(Regex::new("^db").unwrap()));
    assert!(!first_out.eligible(&host));
}

#[test]
fn unmatched_include_keeps_out_in_either_order() {
    let host = Host::named("foo.bar.com", "a");
    let mut conds = Conditions::new();
    conds.add("a".to_string(), Condition::Include(Regex::new("^qux").unwrap()));
    conds.add("a".to_string(), Condition::Exclude(Regex::new("^baz").unwrap()));
    assert!(!conds.eligible(&host));
    conds.add("a".to_string(), Condition::Include(Regex::new("^foo").unwrap()));
    assert!(conds.eligible(&host));
}

#[test]
fn rules_of_other_files_may_stand_between() {
    let host = Host::named("foo", "a");
    let mut conds = Conditions::new();
    conds.add("b".to_string(), Condition::Exclude(Regex::new("foo").unwrap()));
    conds.add("a".to_string(), Condition::Include(Regex::new("bar").unwrap()));
    conds.add("b".to_string(), Condition::Everything);
    conds.add("a".to_string(), Condition::Include(Regex::new("foo").unwrap()));
    assert!(conds.eligible(&host));
    assert!(!conds.eligible(&Host::named("baz", "a")));
    assert!(!conds.eligible(&Host::named("foo", "b")));
    assert!(conds.eligible(&Host::named("baz", "b")));
}

#[test]
fn match_is_anywhere_in_the_name() {
    let mut conds = Conditions::new();
    conds.add("a".to_string(), Condition::Include(Regex::new("ample").unwrap()));
    assert!(conds.eligible(&Host::named("www.example.org", "a")));
    assert!(!conds.eligible(&Host::named("www.test.org", "a")));
}

#[test]
fn conditions_from_specs_keep_includes_before_excludes() {
    let conds = create_conditions(
        vec!["a,^keep".to_string()],
        vec!["a,^keep-not".to_string(), "b,.".to_string()],
    )
    .unwrap();
    assert!(conds.eligible(&Host::named("keep-me", "a")));
    // the include rule was added first and decides
    assert!(conds.eligible(&Host::named("keep-not", "a")));
    assert!(!conds.eligible(&Host::named("other", "a")));
    assert!(!conds.eligible(&Host::named("anything", "b")));
    assert!(conds.eligible(&Host::named("anything", "c")));
}

#[test]
fn conditions_from_no_specs_let_every_host_in() {
    let conds = create_conditions(vec![], vec![]).unwrap();
    assert!(conds.eligible(&Host::named("anything", "anywhere")));
}

#[test]
fn conditions_fail_with_first_bad_spec() {
    let r = create_conditions(
        vec!["a,x".to_string(), "broken".to_string(), "also-broken".to_string()],
        vec!["worse".to_string()],
    );
    assert_eq!(r.err(), Some(ErrorKind::ConditionFormat("broken".to_string())));
    let r = create_conditions(vec!["a,x".to_string()], vec!["b,y".to_string(), "b,(".to_string()]);
    assert_eq!(r.err(), Some(ErrorKind::ConditionFormat("b,(".to_string())));
}
