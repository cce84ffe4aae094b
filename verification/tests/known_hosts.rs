use ssh_bookmarker::known_hosts::{process_entry, KnownHosts};
use ssh_bookmarker::{ConfigFile, ErrorKind, Host};

#[test]
fn test_known_hosts_entry() {
    let from = "/dev/null";
    let no_hosts: Vec<Host> = vec![];
    let comment: Vec<Host> = process_entry(from, 0, "# Comments allowed at start of line").unwrap();
    assert_eq!(no_hosts, comment);

    let empty: Vec<Host> = process_entry("/dev/null", 0, "    ").unwrap();
    assert_eq!(no_hosts, empty);

    let multiple: Vec<Host> = process_entry(
        from,
        0,
        "closenet,closenet.example.net,192.0.2.53 1024 37 159...93 closenet.example.net ",
    )
    .unwrap();
    let expected_multiple: Vec<Host> = vec![
        Host::named("closenet", from),
        Host::named("closenet.example.net", from),
        Host::named("192.0.2.53", from),
    ];
    assert_eq!(multiple, expected_multiple);

    let annotated: Vec<Host> =
        process_entry(from, 0, "@revoked something ssh-rsa AAAAB5W...").unwrap();
    let expected_annotated: Vec<Host> = vec![Host::named("something", from)];
    assert_eq!(annotated, expected_annotated);

    let hashed: Vec<Host> = process_entry(
        from,
        0,
        "|1|JfKTdBh7rNbXkVAQCRp4OQoPfmI=|USECr3SWf1JUPsms5AqfD5QfxkM= ssh-rsa AAAAB5W...",
    )
    .unwrap();
    let expected_hashed: Vec<Host> = vec![];
    assert_eq!(hashed, expected_hashed);
}

#[test]
fn blank_and_comment_lines_declare_nothing() {
    for line in ["", " ", "\t\t", "#", "   # indented comment", "#|1|abc ssh-rsa", "\u{3000}"] {
        assert_eq!(process_entry("/etc/ssh/known_hosts", 7, line), Ok(vec![]));
    }
}

#[test]
fn marker_entry_yields_one_host_with_default_protocol() {
    let hosts = process_entry("kh", 3, "@revoked something ssh-rsa AAAAB5W...").unwrap();
    assert_eq!(hosts.len(), 1);
    assert_eq!(hosts[0].name(), "something");
    assert_eq!(hosts[0].protocol(), "ssh");
    assert_eq!(hosts[0].source(), "kh");
}

#[test]
fn marker_before_hashed_entry_declares_nothing() {
    assert_eq!(process_entry("kh", 0, "@cert-authority |1|abc=|def= ssh-rsa AAAA"), Ok(vec![]));
}

#[test]
fn lone_marker_is_a_format_error() {
    let r = process_entry("/home/me/.ssh/known_hosts", 12, "  @revoked \t");
    assert_eq!(
        r,
        Err(ErrorKind::KnownHostFormat(
            "/home/me/.ssh/known_hosts".to_string(),
            12,
            "  @revoked \t".to_string()
        ))
    );
}

#[test]
fn comma_joined_names_share_source_and_protocol() {
    let hosts = process_entry("src", 0, "a,b,c ssh-ed25519 AAAA").unwrap();
    let names: Vec<&str> = hosts.iter().map(|h| h.name()).collect();
    assert_eq!(names, vec!["a", "b", "c"]);
    for h in hosts.iter() {
        assert_eq!(h.source(), "src");
        assert_eq!(h.protocol(), "ssh");
    }
}

#[test]
fn empty_names_between_commas_are_kept() {
    let hosts = process_entry("src", 0, "a,,b, key").unwrap();
    let names: Vec<&str> = hosts.iter().map(|h| h.name()).collect();
    assert_eq!(names, vec!["a", "", "b", ""]);
}

#[test]
fn bracketed_host_with_port_is_one_name() {
    let hosts = process_entry("src", 0, "[example.org]:2222 ssh-rsa AAAA").unwrap();
    assert_eq!(hosts, vec![Host::named("[example.org]:2222", "src")]);
}

#[test]
fn known_hosts_file_gathers_lines_in_order() {
    let file = KnownHosts::from("kh".to_string());
    assert_eq!(file.pathname(), "kh");
    let lines = vec![
        "# a comment".to_string(),
        "one,two ssh-rsa AAAA".to_string(),
        "".to_string(),
        "|1|hash=|hash= ssh-rsa AAAA".to_string(),
        "@cert-authority three ssh-rsa AAAA".to_string(),
    ];
    let hosts = file.parse_entries(&lines).unwrap();
    assert_eq!(
        hosts,
        vec![Host::named("one", "kh"), Host::named("two", "kh"), Host::named("three", "kh")]
    );
    assert_eq!(file.parse_entries(&vec![]), Ok(vec![]));
}

#[test]
fn known_hosts_file_stops_at_first_bad_line() {
    let file = KnownHosts::from("kh".to_string());
    let lines = vec![
        "one ssh-rsa AAAA".to_string(),
        "@revoked".to_string(),
        "two ssh-rsa AAAA".to_string(),
        "@cert-authority".to_string(),
    ];
    assert_eq!(
        file.parse_entries(&lines),
        Err(ErrorKind::KnownHostFormat("kh".to_string(), 1, "@revoked".to_string()))
    );
}
