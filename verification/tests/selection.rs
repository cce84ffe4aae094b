use regex::Regex;
use ssh_bookmarker::known_hosts::KnownHosts;
use ssh_bookmarker::selection::{dedup_hosts, retain_eligible, sort_hosts};
use ssh_bookmarker::ssh_config::SSHConfigFile;
use ssh_bookmarker::{process, select_hosts, Condition, Conditions, ErrorKind, Host};

fn lines(text: &[&str]) -> Vec<String> {
    text.iter().map(|l| l.to_string()).collect()
}

#[test]
fn sorting_is_that_of_the_standard_library() {
    let hosts = vec![
        Host::new("b", "ssh", "f"),
        Host::new("a", "ssh", "g"),
        Host::new("a", "mosh", "z"),
        Host::new("a", "ssh", "f"),
        Host::new("", "x", "y"),
        Host::new("a", "ssh", "g"),
        Host::new("B", "ssh", "f"),
    ];
    let mut expected = hosts.clone();
    expected.sort();
    assert_eq!(sort_hosts(hosts), expected);
    assert_eq!(sort_hosts(vec![]), vec![]);
}

#[test]
fn dedup_keeps_the_first_of_each_run() {
    let hosts = vec![
        Host::new("a", "ssh", "f"),
        Host::new("a", "ssh", "g"),
        Host::new("a", "mosh", "g"),
        Host::new("b", "mosh", "g"),
        Host::new("b", "mosh", "g"),
        Host::new("a", "ssh", "h"),
    ];
    assert_eq!(
        dedup_hosts(hosts),
        vec![
            Host::new("a", "ssh", "f"),
            Host::new("a", "mosh", "g"),
            Host::new("b", "mosh", "g"),
            Host::new("a", "ssh", "h"),
        ]
    );
    assert_eq!(dedup_hosts(vec![]), vec![]);
}

#[test]
fn same_host_from_two_files_collapses_to_one() {
    let hosts = vec![
        Host::named("shared", "/etc/ssh/ssh_config"),
        Host::named("other", "/etc/ssh/ssh_config"),
        Host::named("shared", "/etc/ssh/known_hosts"),
    ];
    let out = dedup_hosts(sort_hosts(hosts));
    assert_eq!(
        out,
        vec![Host::named("other", "/etc/ssh/ssh_config"), Host::named("shared", "/etc/ssh/known_hosts")]
    );
}

#[test]
fn ineligible_hosts_are_left_out_in_order() {
    let mut conds = Conditions::new();
    conds.add("f".to_string(), Condition::Exclude(Regex::new("^x").unwrap()));
    let hosts = vec![
        Host::named("keep", "f"),
        Host::named("x-out", "f"),
        Host::named("x-in", "g"),
        Host::named("wild*", "g"),
        Host::named("also", "f"),
    ];
    assert_eq!(
        retain_eligible(hosts, &conds),
        vec![Host::named("keep", "f"), Host::named("x-in", "g"), Host::named("also", "f")]
    );
}

#[test]
fn selection_has_each_eligible_target_once() {
    let mut conds = Conditions::new();
    conds.add("a".to_string(), Condition::Exclude(Regex::new("^dup$").unwrap()));
    let hosts = vec![
        Host::named("zeta", "b"),
        Host::named("dup", "a"),
        Host::named("dup", "b"),
        Host::named("dup", "c"),
        Host::new("dup", "mosh", "a"),
        Host::named("alpha", "a"),
        Host::named("?", "a"),
        Host::named("zeta", "a"),
    ];
    assert_eq!(
        select_hosts(hosts, &conds),
        vec![
            Host::named("alpha", "a"),
            Host::named("dup", "b"),
            Host::named("zeta", "a"),
        ]
    );
    assert_eq!(select_hosts(vec![], &conds), vec![]);
}

#[test]
fn process_gathers_hosts_of_all_sources() {
    let sources = vec![
        (KnownHosts::from("k1".to_string()), lines(&["a,b ssh-rsa AAAA"])),
        (KnownHosts::from("k2".to_string()), lines(&[])),
        (KnownHosts::from("k3".to_string()), lines(&["# nothing", "c ssh-rsa AAAA"])),
    ];
    let (hosts, skipped) = process(sources);
    assert_eq!(hosts, vec![Host::named("a", "k1"), Host::named("b", "k1"), Host::named("c", "k3")]);
    assert_eq!(skipped, vec![]);

    let (hosts, skipped) = process(vec![(
        SSHConfigFile::from("c1".to_string()),
        lines(&["Host x y #:mosh", "@revoked"]),
    )]);
    assert_eq!(hosts, vec![Host::new("x", "mosh", "c1"), Host::new("y", "mosh", "c1")]);
    assert_eq!(skipped, vec![]);
}

#[test]
fn process_skips_a_source_that_cannot_be_parsed() {
    let sources = vec![
        (KnownHosts::from("k1".to_string()), lines(&["a ssh-rsa AAAA"])),
        (KnownHosts::from("k2".to_string()), lines(&["b ssh-rsa AAAA", "@revoked", "c key"])),
        (KnownHosts::from("k3".to_string()), lines(&["d ssh-rsa AAAA"])),
    ];
    let (hosts, skipped) = process(sources);
    assert_eq!(hosts, vec![Host::named("a", "k1"), Host::named("d", "k3")]);
    assert_eq!(
        skipped,
        vec![(
            "k2".to_string(),
            ErrorKind::KnownHostFormat("k2".to_string(), 1, "@revoked".to_string())
        )]
    );
    let none: Vec<(KnownHosts, Vec<String>)> = vec![];
    assert_eq!(process(none), (vec![], vec![]));
}
