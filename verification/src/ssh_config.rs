//! The ssh_config format, as far as it declares hosts: lines of the form `Host NAME...`,
//! with an optional annotation `#:PROTOCOL,...` that names the protocols of the line.
use crate::config_file::{entries_view, ConfigFile};
use crate::errors::{ErrorKind, ErrorKindView};
use crate::host::{default_protocol, host_views, Host, HostView};
use crate::text::{
    chars_of, find_marker, is_space, lemma_first_word_starts_text, lemma_trim_ends,
    lemma_words_nonempty, marker_index, split, split_on, split_words, str_views, string_views,
    trim, trimmed, words,
};
use vstd::prelude::*;
use vstd::string::{StrSliceExecFns, StringExecFns};

verus! {

/// An ssh_config file.
pub struct SSHConfigFile {
    pathname: String,
}

/// Whether `word` is the keyword `host`, in any mix of upper and lower case.
pub open spec fn is_host_keyword(word: Seq<char>) -> bool {
    &&& word.len() == 4
    &&& (word[0] == 'h' || word[0] == 'H')
    &&& (word[1] == 'o' || word[1] == 'O')
    &&& (word[2] == 's' || word[2] == 'S')
    &&& (word[3] == 't' || word[3] == 'T')
}

/// The part of a line before its first annotation marker.
pub open spec fn declaration(text: Seq<char>) -> Seq<char> {
    text.take(find_marker(text))
}

/// The annotation of a line, if it has one: what stands between the first marker and
/// the next, or the end of the line.
pub open spec fn annotation(text: Seq<char>) -> Option<Seq<char>> {
    let m = find_marker(text);
    if m >= text.len() {
        None
    } else {
        let rest = text.skip(m + 2);
        Some(rest.take(find_marker(rest)))
    }
}

/// The protocols of a line: the comma-separated parts of its annotation, or the default
/// protocol alone where it has none.
pub open spec fn protocols(text: Seq<char>) -> Seq<Seq<char>> {
    match annotation(text) {
        None => seq![default_protocol()],
        Some(list) => split(list, ','),
    }
}

/// The host names that a line declares: the words behind the keyword `host`, where the
/// line's first word is that keyword.
pub open spec fn declared_names(text: Seq<char>) -> Seq<Seq<char>> {
    let head = words(declaration(text));
    if head.len() > 0 && is_host_keyword(head[0]) {
        head.skip(1)
    } else {
        Seq::empty()
    }
}

/// One host for each of `names`, reached by `protocol` and found in `path`.
pub open spec fn hosts_with(names: Seq<Seq<char>>, protocol: Seq<char>, path: Seq<char>) -> Seq<
    HostView,
> {
    Seq::new(names.len(), |i: int| HostView { name: names[i], protocol, source: path })
}

/// One host for each pair of a name and a protocol: all names with the first protocol,
/// then all names with the second, and so on.
pub open spec fn cross(names: Seq<Seq<char>>, protocols: Seq<Seq<char>>, path: Seq<char>) -> Seq<
    HostView,
>
    decreases protocols.len(),
{
    if protocols.len() == 0 {
        Seq::empty()
    } else {
        cross(names, protocols.drop_last(), path) + hosts_with(names, protocols.last(), path)
    }
}

/// The hosts that one line of the ssh_config file `path` declares. Blank lines, comments
/// and lines that do not begin with the keyword `host` declare none.
pub open spec fn line_hosts(path: Seq<char>, line: Seq<char>) -> Seq<HostView> {
    let text = trim(line);
    if text.len() == 0 || text[0] == '#' {
        Seq::empty()
    } else {
        cross(declared_names(text), protocols(text), path)
    }
}

/// The hosts that the lines of the ssh_config file `path` declare, in the order of the file.
pub open spec fn file_hosts(path: Seq<char>, lines: Seq<Seq<char>>) -> Seq<HostView>
    decreases lines.len(),
{
    if lines.len() == 0 {
        Seq::empty()
    } else {
        file_hosts(path, lines.drop_last()) + line_hosts(path, lines.last())
    }
}

/// Whether `word` is the keyword `host`, in any mix of upper and lower case.
pub fn is_host_word(word: &str) -> (b: bool)
    ensures
        b == is_host_keyword(word@),
{
    let v = chars_of(word);
    v.len() == 4 && (v[0] == 'h' || v[0] == 'H') && (v[1] == 'o' || v[1] == 'O') && (v[2] == 's'
        || v[2] == 'S') && (v[3] == 't' || v[3] == 'T')
}

/// The protocols that a trimmed line names.
fn line_protocols<'a>(text: &'a str, v: &Vec<char>, m: usize) -> (out: Vec<&'a str>)
    requires
        v@ == text@,
        m == find_marker(text@),
        m <= v.len(),
    ensures
        str_views(out@) == protocols(text@),
{
    if m >= v.len() {
        let mut out: Vec<&'a str> = Vec::new();
        out.push("ssh");
        proof {
            assert(str_views(out@) =~= seq![default_protocol()]);
        }
        out
    } else {
        proof {
            assert(m + 2 <= v.len()) by {
                lemma_marker_fits(text@);
            }
        }
        let rest = text.substring_char(m + 2, v.len());
        let rv = chars_of(rest);
        let m2 = marker_index(&rv);
        proof {
            assert(text@.subrange(m + 2, v.len() as int) =~= text@.skip(m + 2));
            assert(rest@.subrange(0, m2 as int) =~= rest@.take(m2 as int));
        }
        split_on(rest.substring_char(0, m2), ',')
    }
}

/// The hosts that one line of an ssh_config file declares.
pub fn parse_line(pathname: &str, line: &str) -> (hosts: Vec<Host>)
    ensures
        host_views(hosts@) == line_hosts(pathname@, line@),
{
    let mut hosts: Vec<Host> = Vec::new();
    proof {
        assert(host_views(hosts@) =~= Seq::empty());
    }
    let text = trimmed(line);
    if text.is_empty() || text.get_char(0) == '#' {
        return hosts;
    }
    let v = chars_of(text);
    let m = marker_index(&v);
    proof {
        assert(text@.subrange(0, m as int) =~= declaration(text@));
    }
    let head = split_words(text.substring_char(0, m));
    proof {
        lemma_cross_of_no_names(protocols(text@), pathname@);
    }
    if head.len() == 0 {
        return hosts;
    }
    proof {
        assert(str_views(head@)[0] == head@[0]@);
    }
    if !is_host_word(head[0]) {
        return hosts;
    }
    let protos = line_protocols(text, &v, m);
    let ghost names = declared_names(text@);
    let ghost plist = protocols(text@);
    proof {
        assert(names =~= str_views(head@).skip(1));
        assert(plist.take(0) =~= Seq::empty());
    }
    let mut p: usize = 0;
    while p < protos.len()
        invariant
            p <= protos.len(),
            head@.len() >= 1,
            names == str_views(head@).skip(1),
            plist == str_views(protos@),
            host_views(hosts@) == cross(names, plist.take(p as int), pathname@),
        decreases protos.len() - p,
    {
        let ghost done = host_views(hosts@);
        let ghost row = hosts_with(names, plist[p as int], pathname@);
        let mut n: usize = 1;
        while n < head.len()
            invariant
                1 <= n <= head.len(),
                p < protos.len(),
                names == str_views(head@).skip(1),
                plist == str_views(protos@),
                row == hosts_with(names, plist[p as int], pathname@),
                host_views(hosts@) == done + row.take(n - 1),
            decreases head.len() - n,
        {
            let ghost was = host_views(hosts@);
            let host = Host::new(head[n], protos[p], pathname);
            proof {
                assert(names[n - 1] == head@[n as int]@);
                assert(plist[p as int] == protos@[p as int]@);
                assert(host@ == row[n - 1]);
                assert(row.take(n as int) =~= row.take(n - 1).push(row[n - 1]));
            }
            hosts.push(host);
            proof {
                assert(host_views(hosts@) =~= was.push(host@));
            }
            n += 1;
        }
        proof {
            assert(row.take(n - 1) =~= row);
            assert(plist.take(p + 1).drop_last() =~= plist.take(p as int));
            assert(plist.take(p + 1).last() == plist[p as int]);
        }
        p += 1;
    }
    proof {
        assert(plist.take(p as int) =~= plist);
    }
    hosts
}

impl From<String> for SSHConfigFile {
    fn from(path: String) -> (file: SSHConfigFile) {
        SSHConfigFile { pathname: path }
    }
}

impl vstd::std_specs::convert::FromSpecImpl<String> for SSHConfigFile {
    open spec fn obeys_from_spec() -> bool {
        true
    }

    closed spec fn from_spec(path: String) -> SSHConfigFile {
        SSHConfigFile { pathname: path }
    }
}

/// The ssh_config file made from a path is the file at that path.
pub proof fn lemma_from_path(path: String)
    ensures
        <SSHConfigFile as vstd::std_specs::convert::FromSpec<String>>::from_spec(path).path() == path@,
{
}

impl ConfigFile for SSHConfigFile {
    closed spec fn path(&self) -> Seq<char> {
        self.pathname@
    }

    open spec fn entries_in(&self, lines: Seq<Seq<char>>) -> Result<
        Seq<HostView>,
        ErrorKindView,
    > {
        Ok(file_hosts(self.path(), lines))
    }

    fn pathname<'a>(&'a self) -> (path: &'a str) {
        self.pathname.as_str()
    }

    fn parse_entries(&self, lines: &Vec<String>) -> (r: Result<Vec<Host>, ErrorKind>) {
        let mut hosts: Vec<Host> = Vec::new();
        let mut i: usize = 0;
        proof {
            assert(string_views(lines@).take(0) =~= Seq::empty());
            assert(host_views(hosts@) =~= Seq::empty());
        }
        while i < lines.len()
            invariant
                i <= lines.len(),
                host_views(hosts@) == file_hosts(
                    self.path(),
                    string_views(lines@).take(i as int),
                ),
            decreases lines.len() - i,
        {
            let ghost all = string_views(lines@);
            let ghost found = host_views(hosts@);
            proof {
                assert(all.take(i + 1).drop_last() =~= all.take(i as int));
                assert(all.take(i + 1).last() == lines@[i as int]@);
            }
            let mut more = parse_line(self.pathname.as_str(), lines[i].as_str());
            let ghost added = host_views(more@);
            hosts.append(&mut more);
            proof {
                assert(host_views(hosts@) =~= found + added);
            }
            i += 1;
        }
        proof {
            assert(string_views(lines@).take(i as int) =~= string_views(lines@));
        }
        Ok(hosts)
    }
}

/// A marker that is found lies wholly inside the text.
pub proof fn lemma_marker_fits(s: Seq<char>)
    ensures
        0 <= find_marker(s) <= s.len(),
        find_marker(s) < s.len() ==> find_marker(s) + 2 <= s.len() && s[find_marker(s)] == '#'
            && s[find_marker(s) + 1] == ':',
    decreases s.len(),
{
    if s.len() >= 2 && !(s[0] == '#' && s[1] == ':') {
        lemma_marker_fits(s.drop_first());
    }
}

/// The cross product has one host for each pair of a name and a protocol.
pub proof fn lemma_cross_len(names: Seq<Seq<char>>, protocols: Seq<Seq<char>>, path: Seq<char>)
    ensures
        cross(names, protocols, path).len() == names.len() * protocols.len(),
    decreases protocols.len(),
{
    if protocols.len() > 0 {
        lemma_cross_len(names, protocols.drop_last(), path);
        assert(names.len() * protocols.len() == names.len() * (protocols.len() - 1)
            + names.len()) by (nonlinear_arith);
    } else {
        assert(names.len() * protocols.len() == 0) by (nonlinear_arith)
            requires
                protocols.len() == 0,
        ;
    }
}

/// The host for the name at index `n` and the protocol at index `p` stands at index
/// `p * names.len() + n` of the cross product.
pub proof fn lemma_cross_index(
    names: Seq<Seq<char>>,
    protocols: Seq<Seq<char>>,
    path: Seq<char>,
    n: int,
    p: int,
)
    requires
        0 <= n < names.len(),
        0 <= p < protocols.len(),
    ensures
        0 <= p * names.len() + n < cross(names, protocols, path).len(),
        cross(names, protocols, path)[p * names.len() + n] == (HostView {
            name: names[n],
            protocol: protocols[p],
            source: path,
        }),
    decreases protocols.len(),
{
    let init = protocols.drop_last();
    let width = names.len() as int;
    lemma_cross_len(names, init, path);
    lemma_cross_len(names, protocols, path);
    assert(width * protocols.len() == width * init.len() + width) by (nonlinear_arith)
        requires
            protocols.len() == init.len() + 1,
    ;
    assert(0 <= p * width <= init.len() * width && (p < init.len() ==> p * width + width
        <= init.len() * width)) by (nonlinear_arith)
        requires
            0 <= p <= init.len(),
            0 <= width,
    ;
    assert(width * init.len() == init.len() * width) by (nonlinear_arith);
    if p < init.len() {
        lemma_cross_index(names, init, path, n, p);
        assert(init[p] == protocols[p]);
    } else {
        assert(p * width == init.len() * width);
        assert(hosts_with(names, protocols.last(), path)[n] == (HostView {
            name: names[n],
            protocol: protocols[p],
            source: path,
        }));
    }
}

/// A line whose text is shorter than the keyword `host`, or does not begin with its
/// letters, in either case, declares no host.
pub proof fn lemma_other_lines_declare_nothing(path: Seq<char>, line: Seq<char>)
    requires
        trim(line).len() < 4 || !is_host_keyword(trim(line).take(4)),
    ensures
        line_hosts(path, line) == Seq::<HostView>::empty(),
{
    let text = trim(line);
    if text.len() > 0 && text[0] != '#' {
        lemma_trim_ends(line);
        lemma_marker_fits(text);
        let decl = declaration(text);
        let head = words(decl);
        if head.len() > 0 && is_host_keyword(head[0]) {
            assert(decl.len() > 0) by {
                if decl.len() == 0 {
                    assert(decl =~= Seq::empty());
                    crate::text::lemma_words_of_empty();
                }
            }
            assert(decl[0] == text[0]);
            lemma_first_word_starts_text(decl);
            assert(decl.take(4) =~= text.take(4));
            assert(false);
        }
        assert(declared_names(text) =~= Seq::empty());
        lemma_cross_of_no_names(protocols(text), path);
    }
}

/// Without names there are no hosts, whatever the protocols.
pub proof fn lemma_cross_of_no_names(protocols: Seq<Seq<char>>, path: Seq<char>)
    ensures
        cross(Seq::empty(), protocols, path) == Seq::<HostView>::empty(),
    decreases protocols.len(),
{
    if protocols.len() > 0 {
        lemma_cross_of_no_names(protocols.drop_last(), path);
        assert(hosts_with(Seq::empty(), protocols.last(), path) =~= Seq::empty());
    }
}

} // verus!
