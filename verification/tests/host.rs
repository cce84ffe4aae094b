use regex::Regex;
use ssh_bookmarker::order::Rank;
use ssh_bookmarker::{Condition, Conditions, Host};
use std::cmp::Ordering;

#[test]
fn test_host_creation() {
    let from = "/dev/null";
    let ohai = Host::named("ohai", from);
    assert_eq!(ohai.name(), "ohai");
    assert_eq!(ohai.protocol(), "ssh");
    assert_eq!(ohai.source(), from);

    let mosh_ohai = Host::new("ohai", "mosh", from);
    assert_eq!(mosh_ohai.name(), "ohai");
    assert_eq!(mosh_ohai.protocol(), "mosh");
    assert_eq!(mosh_ohai.source(), from);
}

#[test]
fn test_host_eligibility() {
    let from = "/dev/null";
    let conds = Conditions::new();
    assert_eq!(
        Host::named("foo*.oink.example.com", from).ineligible(&conds),
        true
    );
    assert_eq!(Host::named("*", from).ineligible(&conds), true);

    assert_eq!(
        Host::named("foobar.oink.example.com", from).ineligible(&conds),
        false
    );
}

#[test]
fn test_conditions_match() {
    let from = "/dev/null";
    let host = Host::named("foo.bar.com", from);

    // empty conditions means the host goes in:
    {
        let conds = Conditions::new();
        assert!(conds.eligible(&host));
    }
    // An include for the host means the host goes in:
    {
        let mut conds = Conditions::new();
        conds.add(
            from.to_string(),
            Condition::Include(Regex::new(r"^foo\.").unwrap()),
        );
        assert!(conds.eligible(&host));
    }
    // An exclude for the host means the host is not included:
    {
        let mut conds = Conditions::new();
        conds.add(
            from.to_string(),
            Condition::Exclude(Regex::new(r"^foo\.").unwrap()),
        );
        assert!(!conds.eligible(&host));
    }
    // An exclude for another host means the host is in:
    {
        let mut conds = Conditions::new();
        conds.add(
            from.to_string(),
            Condition::Exclude(Regex::new(r"^baz\.").unwrap()),
        );
        assert!(conds.eligible(&host));
    }
    // An exclude and an include that both don't match mean that the host is not included:
    {
        let mut conds = Conditions::new();
        conds.add(
            from.to_string(),
            Condition::Exclude(Regex::new(r"^baz\.").unwrap()),
        );
        conds.add(
            from.to_string(),
            Condition::Include(Regex::new(r"^qux\.").unwrap()),
        );
        assert!(!conds.eligible(&host));
    }
}

#[test]
fn constructors_accept_any_text() {
    let odd = Host::new("../a/b*?", "", "");
    assert_eq!(odd.name(), "../a/b*?");
    assert_eq!(odd.protocol(), "");
    assert_eq!(odd.source(), "");
    assert_eq!(Host::named("x", "f"), Host::new("x", "ssh", "f"));
}

#[test]
fn wildcard_names_are_vetoed_by_pattern() {
    for name in ["*", "?", "a*b", "web?.example.org", "*.example.org", "trailing*"] {
        assert!(Host::named(name, "f").is_ineligible_by_pattern(), "{:?}", name);
    }
    for name in ["", "plain", "a.b-c_d", "[::1]:22", "star\u{2217}"] {
        assert!(!Host::named(name, "f").is_ineligible_by_pattern(), "{:?}", name);
    }
}

#[test]
fn wildcard_veto_holds_whatever_the_rules() {
    let mut conds = Conditions::new();
    conds.add("f".to_string(), Condition::Everything);
    conds.add("f".to_string(), Condition::Include(Regex::new("a").unwrap()));
    let wild = Host::new("a*b", "ssh", "f");
    assert!(conds.eligible(&wild));
    assert!(wild.ineligible(&conds));
    assert!(wild.ineligible(&Conditions::default()));
    assert!(!Host::new("ab", "ssh", "f").ineligible(&conds));
}

#[test]
fn equality_is_by_name_protocol_and_source() {
    let a = Host::new("n", "p", "s");
    assert_eq!(a, Host::new("n", "p", "s"));
    assert_ne!(a, Host::new("m", "p", "s"));
    assert_ne!(a, Host::new("n", "q", "s"));
    assert_ne!(a, Host::new("n", "p", "t"));
    assert!(a.has_target_of(&Host::new("n", "p", "t")));
    assert!(!a.has_target_of(&Host::new("n", "q", "s")));
    assert!(!a.has_target_of(&Host::new("m", "p", "s")));
}

#[test]
fn order_is_by_name_then_protocol_then_source() {
    let samples = [
        Host::new("", "", ""),
        Host::new("a", "ssh", "x"),
        Host::new("a", "ssh", "y"),
        Host::new("a", "ssi", "a"),
        Host::new("ab", "mosh", "x"),
        Host::new("b", "", ""),
        Host::new("b", "a", "z"),
        Host::new("\u{e9}", "ssh", "x"),
        Host::new("\u{1F600}", "ssh", "x"),
    ];
    for (i, a) in samples.iter().enumerate() {
        for (j, b) in samples.iter().enumerate() {
            let expected = i.cmp(&j);
            assert_eq!(a.partial_cmp(b), Some(expected));
            assert_eq!(a.cmp(b), expected);
            let rank = match expected {
                Ordering::Less => Rank::Before,
                Ordering::Equal => Rank::Same,
                Ordering::Greater => Rank::After,
            };
            assert_eq!(a.rank(b), rank);
            assert_eq!(a < b, i < j);
            assert_eq!(a == b, i == j);
        }
    }
}
