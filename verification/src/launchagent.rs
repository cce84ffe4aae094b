//! The launch agent: a property list that has the system run the bookmarker again,
//! with the same arguments, once a day and whenever one of its source files changes.
use crate::text::{str_views, string_views};
use vstd::prelude::*;
use vstd::string::StringExecFns;

verus! {

/// Each argument preceded by the flag: `prefix`, `args[0]`, `prefix`, `args[1]`, and so on.
pub open spec fn flagged(prefix: Seq<char>, args: Seq<Seq<char>>) -> Seq<Seq<char>> {
    Seq::new(
        2 * args.len(),
        |i: int|
            if i % 2 == 0 {
                prefix
            } else {
                args[i / 2]
            },
    )
}

/// Each argument as a `string` element of a property list, one behind the other.
pub open spec fn plist_strings(args: Seq<Seq<char>>) -> Seq<char>
    decreases args.len(),
{
    if args.len() == 0 {
        Seq::empty()
    } else {
        plist_strings(args.drop_last()) + "<string>"@ + args.last() + "</string>"@
    }
}

/// What the launch agent holds before the path of the program.
pub open spec fn agent_opening() -> Seq<char> {
    "<?xml version=\"1.0\" encoding=\"UTF-8\"?>\n<!DOCTYPE plist PUBLIC \"-//Apple//DTD PLIST 1.0//EN\" \"http://www.apple.com/DTDs/PropertyList-1.0.dtd\">\n<plist version=\"1.0\">\n  <dict>\n    <key>Label</key>\n    <string>net.boinkor.ssh-bookmarker</string>\n    <key>ProgramArguments</key>\n    <array><string>"@
}

/// What the launch agent holds between the path of the program and its arguments.
pub open spec fn agent_subcommand() -> Seq<char> {
    "</string><string>create</string>"@
}

/// What the launch agent holds between the program's arguments and the watched paths.
pub open spec fn agent_schedule() -> Seq<char> {
    "</array>\n    <key>QueueDirectories</key>\n    <array/>\n    <key>RunAtLoad</key>\n    <true/>\n    <key>StartCalendarInterval</key>\n    <dict>\n      <key>Hour</key>\n      <integer>0</integer>\n      <key>Minute</key>\n      <integer>0</integer>\n    </dict>\n    <key>WatchPaths</key>\n    <array>"@
}

/// What the launch agent holds behind the watched paths.
pub open spec fn agent_closing() -> Seq<char> {
    "</array>\n  </dict>\n</plist>"@
}

/// The arguments with which the launch agent runs the program: each ssh_config file
/// behind `-c`, each known_hosts file behind `-k`, each include specification behind `-I`,
/// each exclude specification behind `-X`, and the output directory.
pub open spec fn agent_arguments(
    configs: Seq<Seq<char>>,
    known_hosts: Seq<Seq<char>>,
    includes: Seq<Seq<char>>,
    excludes: Seq<Seq<char>>,
    output: Seq<char>,
) -> Seq<char> {
    plist_strings(flagged("-c"@, configs)) + plist_strings(flagged("-k"@, known_hosts))
        + plist_strings(flagged("-I"@, includes)) + plist_strings(flagged("-X"@, excludes))
        + plist_strings(seq![output])
}

/// The launch agent for the program `exe`: it runs `exe create` with the given arguments
/// and watches the source files.
pub open spec fn launch_agent(
    exe: Seq<char>,
    configs: Seq<Seq<char>>,
    known_hosts: Seq<Seq<char>>,
    includes: Seq<Seq<char>>,
    excludes: Seq<Seq<char>>,
    output: Seq<char>,
) -> Seq<char> {
    agent_opening() + exe + agent_subcommand() + agent_arguments(
        configs,
        known_hosts,
        includes,
        excludes,
        output,
    ) + agent_schedule() + plist_strings(configs) + plist_strings(known_hosts) + agent_closing()
}

/// The arguments, each preceded by the flag `prefix`.
pub fn command_lineify<'a>(prefix: &'a str, args: &[&'a str]) -> (out: Vec<&'a str>)
    ensures
        str_views(out@) == flagged(prefix@, str_views(args@)),
{
    let mut out: Vec<&'a str> = Vec::new();
    let mut i: usize = 0;
    while i < args.len()
        invariant
            i <= args.len(),
            out@.len() == 2 * i,
            forall|k: int| 0 <= k < i ==> (#[trigger] out@[2 * k])@ == prefix@,
            forall|k: int| 0 <= k < i ==> (#[trigger] out@[2 * k + 1])@ == args@[k]@,
        decreases args.len() - i,
    {
        let ghost before = out@;
        out.push(prefix);
        out.push(args[i]);
        proof {
            assert forall|k: int| 0 <= k < i + 1 implies (#[trigger] out@[2 * k])@ == prefix@ by {
                if k < i {
                    assert(out@[2 * k] == before[2 * k]);
                }
            }
            assert forall|k: int| 0 <= k < i + 1 implies (#[trigger] out@[2 * k + 1])@
                == args@[k]@ by {
                if k < i {
                    assert(out@[2 * k + 1] == before[2 * k + 1]);
                }
            }
        }
        i += 1;
    }
    proof {
        let expected = flagged(prefix@, str_views(args@));
        assert(str_views(out@).len() == expected.len());
        assert forall|j: int| 0 <= j < expected.len() implies str_views(out@)[j]
            == expected[j] by {
            let k = j / 2;
            if j % 2 == 0 {
                assert(j == 2 * k);
                assert(out@[2 * k]@ == prefix@);
            } else {
                assert(j == 2 * k + 1);
                assert(out@[2 * k + 1]@ == args@[k]@);
            }
        }
        assert(str_views(out@) =~= expected);
    }
    out
}

/// The arguments as `string` elements of a property list, one behind the other.
pub fn plist_stringify(args: &[&str]) -> (out: String)
    ensures
        out@ == plist_strings(str_views(args@)),
{
    let mut out = String::new();
    let mut i: usize = 0;
    proof {
        assert(str_views(args@).take(0) =~= Seq::empty());
    }
    while i < args.len()
        invariant
            i <= args.len(),
            out@ == plist_strings(str_views(args@).take(i as int)),
        decreases args.len() - i,
    {
        proof {
            let all = str_views(args@);
            assert(all.take(i + 1).drop_last() =~= all.take(i as int));
            assert(all.take(i + 1).last() == args@[i as int]@);
        }
        out.append("<string>");
        out.append(args[i]);
        out.append("</string>");
        i += 1;
    }
    proof {
        assert(str_views(args@).take(i as int) =~= str_views(args@));
    }
    out
}

/// The strings of `v`, borrowed.
fn borrowed<'a>(v: &'a Vec<String>) -> (out: Vec<&'a str>)
    ensures
        str_views(out@) == string_views(v@),
{
    let mut out: Vec<&'a str> = Vec::new();
    let mut i: usize = 0;
    while i < v.len()
        invariant
            i <= v.len(),
            out@.len() == i,
            forall|k: int| 0 <= k < i ==> (#[trigger] out@[k])@ == v@[k]@,
        decreases v.len() - i,
    {
        out.push(v[i].as_str());
        i += 1;
    }
    proof {
        assert(str_views(out@) =~= string_views(v@));
    }
    out
}

/// The launch agent for the program at the path `exe`.
pub fn create_for_exe(
    exe: &str,
    configs: Vec<String>,
    known_hosts: Vec<String>,
    includes: Vec<String>,
    excludes: Vec<String>,
    output: &str,
) -> (agent: String)
    ensures
        agent@ == launch_agent(
            exe@,
            string_views(configs@),
            string_views(known_hosts@),
            string_views(includes@),
            string_views(excludes@),
            output@,
        ),
{
    let configs = borrowed(&configs);
    let known_hosts = borrowed(&known_hosts);
    let includes = borrowed(&includes);
    let excludes = borrowed(&excludes);
    let mut outputs: Vec<&str> = Vec::new();
    outputs.push(output);
    proof {
        assert(str_views(outputs@) =~= seq![output@]);
    }
    let mut agent = String::from_str(
        "<?xml version=\"1.0\" encoding=\"UTF-8\"?>\n<!DOCTYPE plist PUBLIC \"-//Apple//DTD PLIST 1.0//EN\" \"http://www.apple.com/DTDs/PropertyList-1.0.dtd\">\n<plist version=\"1.0\">\n  <dict>\n    <key>Label</key>\n    <string>net.boinkor.ssh-bookmarker</string>\n    <key>ProgramArguments</key>\n    <array><string>",
    );
    agent.append(exe);
    agent.append("</string><string>create</string>");
    agent.append(plist_stringify(command_lineify("-c", configs.as_slice()).as_slice()).as_str());
    agent.append(
        plist_stringify(command_lineify("-k", known_hosts.as_slice()).as_slice()).as_str(),
    );
    agent.append(plist_stringify(command_lineify("-I", includes.as_slice()).as_slice()).as_str());
    agent.append(plist_stringify(command_lineify("-X", excludes.as_slice()).as_slice()).as_str());
    agent.append(plist_stringify(outputs.as_slice()).as_str());
    agent.append(
        "</array>\n    <key>QueueDirectories</key>\n    <array/>\n    <key>RunAtLoad</key>\n    <true/>\n    <key>StartCalendarInterval</key>\n    <dict>\n      <key>Hour</key>\n      <integer>0</integer>\n      <key>Minute</key>\n      <integer>0</integer>\n    </dict>\n    <key>WatchPaths</key>\n    <array>",
    );
    agent.append(plist_stringify(configs.as_slice()).as_str());
    agent.append(plist_stringify(known_hosts.as_slice()).as_str());
    agent.append("</array>\n  </dict>\n</plist>");
    proof {
        assert(agent@ =~= launch_agent(
            exe@,
            str_views(configs@),
            str_views(known_hosts@),
            str_views(includes@),
            str_views(excludes@),
            output@,
        ));
    }
    agent
}

} // verus!
