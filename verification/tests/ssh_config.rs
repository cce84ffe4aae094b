use ssh_bookmarker::ssh_config::{is_host_word, parse_line, SSHConfigFile};
use ssh_bookmarker::{ConfigFile, Host};

#[test]
fn test_ssh_config() {
    let c = SSHConfigFile::from(String::from("/tmp"));
    assert_eq!(c.pathname(), "/tmp");
}

#[test]
fn annotated_host_line_yields_cross_product() {
    let hosts = parse_line("cfg", "Host foo bar #:mosh,ssh");
    assert_eq!(
        hosts,
        vec![
            Host::new("foo", "mosh", "cfg"),
            Host::new("bar", "mosh", "cfg"),
            Host::new("foo", "ssh", "cfg"),
            Host::new("bar", "ssh", "cfg"),
        ]
    );
}

#[test]
fn host_line_without_annotation_uses_default_protocol() {
    assert_eq!(
        parse_line("cfg", "  Host alpha beta.example.org  "),
        vec![Host::named("alpha", "cfg"), Host::named("beta.example.org", "cfg")]
    );
}

#[test]
fn other_directives_declare_nothing() {
    for line in [
        "",
        "   ",
        "# Host commented",
        "#:mosh",
        "User root",
        "  Port 22",
        "Match host foo",
        "Hos foo",
        "xHost foo",
        "Include other_config",
    ] {
        assert_eq!(parse_line("cfg", line), vec![], "line {:?}", line);
    }
}

#[test]
fn keyword_must_be_the_whole_first_word() {
    assert_eq!(parse_line("cfg", "HostName example.org"), vec![]);
    assert_eq!(parse_line("cfg", "Hostfoo bar"), vec![]);
    assert_eq!(parse_line("cfg", "Host"), vec![]);
}

#[test]
fn keyword_is_matched_without_regard_to_case() {
    for keyword in ["host", "HOST", "Host", "hOsT"] {
        let line = format!("{} gateway", keyword);
        assert_eq!(parse_line("cfg", &line), vec![Host::named("gateway", "cfg")]);
        assert!(is_host_word(keyword));
    }
    assert!(!is_host_word("hosts"));
    assert!(!is_host_word("hos"));
    assert!(!is_host_word("h\u{f6}st"));
    assert!(!is_host_word(""));
}

#[test]
fn annotation_is_taken_as_written() {
    assert_eq!(parse_line("cfg", "Host a #: mosh"), vec![Host::new("a", " mosh", "cfg")]);
    assert_eq!(parse_line("cfg", "Host a #:"), vec![Host::new("a", "", "cfg")]);
    assert_eq!(
        parse_line("cfg", "Host a #:x,,y"),
        vec![Host::new("a", "x", "cfg"), Host::new("a", "", "cfg"), Host::new("a", "y", "cfg")]
    );
    assert_eq!(parse_line("cfg", "Host a #:vnc #:ssh"), vec![Host::new("a", "vnc ", "cfg")]);
    assert_eq!(parse_line("cfg", "Host a # plain comment"), vec![
        Host::named("a", "cfg"),
        Host::named("#", "cfg"),
        Host::named("plain", "cfg"),
        Host::named("comment", "cfg"),
    ]);
}

#[test]
fn wildcard_names_are_read_like_any_other() {
    assert_eq!(
        parse_line("cfg", "Host *.example.org web?"),
        vec![Host::named("*.example.org", "cfg"), Host::named("web?", "cfg")]
    );
}

#[test]
fn ssh_config_file_gathers_lines_in_order() {
    let file = SSHConfigFile::from("cfg".to_string());
    let lines = vec![
        "# global".to_string(),
        "Host one".to_string(),
        "  HostName one.example.org".to_string(),
        "  User me".to_string(),
        "host two three #:mosh".to_string(),
        "Host *".to_string(),
    ];
    assert_eq!(
        file.parse_entries(&lines),
        Ok(vec![
            Host::named("one", "cfg"),
            Host::new("two", "mosh", "cfg"),
            Host::new("three", "mosh", "cfg"),
            Host::named("*", "cfg"),
        ])
    );
    assert_eq!(file.parse_entries(&vec![]), Ok(vec![]));
}

#[test]
fn keyword_test_agrees_with_lower_casing() {
    for code in 0u32..=0x10FFFF {
        if let Some(c) = char::from_u32(code) {
            for at in 0..4 {
                let word: String = "host"
                    .chars()
                    .enumerate()
                    .map(|(i, k)| if i == at { c } else { k })
                    .collect();
                assert_eq!(is_host_word(&word), word.to_lowercase() == "host", "{:?}", word);
            }
        }
    }
}
