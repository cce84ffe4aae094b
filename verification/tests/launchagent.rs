use ssh_bookmarker::launchagent::{command_lineify, create_for_exe, plist_stringify};

#[test]
fn test_command_lineify() {
    let expected: Vec<String> = ["-c", "foo", "-c", "bar"].iter().map(|&s| s.into()).collect();
    assert_eq!(command_lineify("-c", &["foo", "bar"]), expected);
}

#[test]
fn test_plist_stringify() {
    assert_eq!(plist_stringify(&["foo", "bar"]), "<string>foo</string><string>bar</string>".to_string());
    let empty: Vec<&str> = vec![];
    assert_eq!(plist_stringify(empty.as_slice()), "".to_string());
}

#[test]
fn test_create_for_exe() {
    assert_eq!(create_for_exe("program", vec!["/etc/ssh/ssh_config".to_string()], vec!["/etc/ssh/ssh_known_hosts".to_string()], vec!["foo:bar".to_string()], vec!["baz:qux".to_string()], "/tmp/foo"),
    r##"<?xml version="1.0" encoding="UTF-8"?>
<!DOCTYPE plist PUBLIC "-//Apple//DTD PLIST 1.0//EN" "http://www.apple.com/DTDs/PropertyList-1.0.dtd">
<plist version="1.0">
  <dict>
    <key>Label</key>
    <string>net.boinkor.ssh-bookmarker</string>
    <key>ProgramArguments</key>
    <array><string>program</string><string>create</string><string>-c</string><string>/etc/ssh/ssh_config</string><string>-k</string><string>/etc/ssh/ssh_known_hosts</string><string>-I</string><string>foo:bar</string><string>-X</string><string>baz:qux</string><string>/tmp/foo</string></array>
    <key>QueueDirectories</key>
    <array/>
    <key>RunAtLoad</key>
    <true/>
    <key>StartCalendarInterval</key>
    <dict>
      <key>Hour</key>
      <integer>0</integer>
      <key>Minute</key>
      <integer>0</integer>
    </dict>
    <key>WatchPaths</key>
    <array><string>/etc/ssh/ssh_config</string><string>/etc/ssh/ssh_known_hosts</string></array>
  </dict>
</plist>"##)
}

#[test]
fn command_line_of_no_arguments_is_empty() {
    let none: Vec<&str> = vec![];
    assert_eq!(command_lineify("-k", &none), none);
    assert_eq!(command_lineify("-k", &["only"]), vec!["-k", "only"]);
}

#[test]
fn plist_string_of_one_argument() {
    assert_eq!(plist_stringify(&["/tmp/out dir"]), "<string>/tmp/out dir</string>");
    assert_eq!(plist_stringify(&[""]), "<string></string>");
}

#[test]
fn launch_agent_without_sources() {
    let agent = create_for_exe("/usr/local/bin/ssh_bookmarker", vec![], vec![], vec![], vec![], "out");
    assert!(agent.contains(
        "<array><string>/usr/local/bin/ssh_bookmarker</string><string>create</string><string>out</string></array>"
    ));
    assert!(agent.contains("<key>WatchPaths</key>\n    <array></array>"));
    assert!(agent.starts_with("<?xml version=\"1.0\" encoding=\"UTF-8\"?>\n<!DOCTYPE plist"));
    assert!(agent.ends_with("</array>\n  </dict>\n</plist>"));
}

#[test]
fn launch_agent_with_several_sources() {
    let agent = create_for_exe(
        "p",
        vec!["c1".to_string(), "c2".to_string()],
        vec!["k1".to_string()],
        vec![],
        vec!["k1,^old".to_string(), "c1,tmp$".to_string()],
        "o",
    );
    assert!(agent.contains(
        "<string>create</string><string>-c</string><string>c1</string><string>-c</string><string>c2</string><string>-k</string><string>k1</string><string>-X</string><string>k1,^old</string><string>-X</string><string>c1,tmp$</string><string>o</string></array>"
    ));
    assert!(agent.contains(
        "<array><string>c1</string><string>c2</string><string>k1</string></array>"
    ));
}
