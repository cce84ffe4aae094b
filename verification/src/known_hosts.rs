//! The known_hosts format: one entry per line, a host list followed by a key.
use crate::config_file::{entries_view, ConfigFile};
use crate::errors::{ErrorKind, ErrorKindView};
use crate::host::{host_views, named_host, Host, HostView};
use crate::text::{
    lemma_first_word_starts_text, lemma_trim_ends, lemma_trim_keeps_start, lemma_words_nonempty,
    lemma_words_of_empty, split, split_on, split_words, str_views, string_views, trim, trimmed,
    words,
};
use vstd::prelude::*;
use vstd::string::{StrSliceExecFns, StringExecFns};

verus! {

/// A known_hosts file.
pub struct KnownHosts {
    pathname: String,
}

/// One host with the default protocol for each of `names`, all found in `path`.
pub open spec fn named_hosts(names: Seq<Seq<char>>, path: Seq<char>) -> Seq<HostView> {
    Seq::new(names.len(), |i: int| named_host(names[i], path))
}

/// The hosts of a host-list field. A field that begins with `|` holds hashed names, which
/// cannot be read back, and yields nothing; any other field yields one host for each of
/// its comma-separated names.
pub open spec fn host_list(path: Seq<char>, field: Seq<char>) -> Seq<HostView> {
    if field.len() > 0 && field[0] == '|' {
        Seq::empty()
    } else {
        named_hosts(split(field, ','), path)
    }
}

/// The error for a line without a host list.
pub open spec fn format_error(path: Seq<char>, lineno: nat, line: Seq<char>) -> ErrorKindView {
    ErrorKindView::KnownHostFormat(path, lineno, line)
}

/// What line number `lineno` of the known_hosts file `path` declares. Blank lines and
/// comments declare nothing. The host list is the first word, or the second where the
/// first is a marker, which begins with `@`.
pub open spec fn entry_hosts(path: Seq<char>, lineno: nat, line: Seq<char>) -> Result<
    Seq<HostView>,
    ErrorKindView,
> {
    let text = trim(line);
    let fields = words(text);
    if text.len() == 0 || text[0] == '#' {
        Ok(Seq::empty())
    } else if fields[0][0] != '@' {
        Ok(host_list(path, fields[0]))
    } else if fields.len() >= 2 {
        Ok(host_list(path, fields[1]))
    } else {
        Err(format_error(path, lineno, line))
    }
}

/// What the lines of the known_hosts file `path` declare: the hosts of all lines in order,
/// or the error of the first line that has one.
pub open spec fn entries_of(path: Seq<char>, lines: Seq<Seq<char>>) -> Result<
    Seq<HostView>,
    ErrorKindView,
>
    decreases lines.len(),
{
    if lines.len() == 0 {
        Ok(Seq::empty())
    } else {
        match entries_of(path, lines.drop_last()) {
            Err(e) => Err(e),
            Ok(found) => match entry_hosts(path, (lines.len() - 1) as nat, lines.last()) {
                Err(e) => Err(e),
                Ok(more) => Ok(found + more),
            },
        }
    }
}

/// The hosts that one line of a known_hosts file declares.
pub fn process_entry(pathname: &str, lineno: usize, line: &str) -> (r: Result<
    Vec<Host>,
    ErrorKind,
>)
    ensures
        entries_view(r) == entry_hosts(pathname@, lineno as nat, line@),
{
    let text = trimmed(line);
    if text.is_empty() || text.get_char(0) == '#' {
        let none: Vec<Host> = Vec::new();
        proof {
            assert(host_views(none@) =~= Seq::empty());
        }
        return Ok(none);
    }
    let fields = split_words(text);
    proof {
        lemma_trim_ends(line@);
        lemma_first_word_starts_text(text@);
        assert(str_views(fields@)[0] == fields@[0]@);
    }
    let mut field: &str = fields[0];
    if field.get_char(0) == '@' {
        if fields.len() < 2 {
            return Err(
                ErrorKind::KnownHostFormat(
                    String::from_str(pathname),
                    lineno,
                    String::from_str(line),
                ),
            );
        }
        proof {
            lemma_words_nonempty(text@, 1);
            assert(str_views(fields@)[1] == fields@[1]@);
        }
        field = fields[1];
    }
    let mut hosts: Vec<Host> = Vec::new();
    if field.get_char(0) == '|' {
        proof {
            assert(host_views(hosts@) =~= Seq::empty());
        }
        return Ok(hosts);
    }
    let names = split_on(field, ',');
    let mut i: usize = 0;
    while i < names.len()
        invariant
            i <= names.len(),
            hosts@.len() == i,
            forall|k: int| 0 <= k < i ==> (#[trigger] hosts@[k])@ == named_host(names@[k]@, pathname@),
        decreases names.len() - i,
    {
        hosts.push(Host::named(names[i], pathname));
        i += 1;
    }
    proof {
        let expected = named_hosts(split(field@, ','), pathname@);
        assert(expected.len() == names@.len());
        assert forall|k: int| 0 <= k < expected.len() implies host_views(hosts@)[k]
            == expected[k] by {
            assert(str_views(names@)[k] == names@[k]@);
        }
        assert(host_views(hosts@) =~= expected);
    }
    Ok(hosts)
}

impl From<String> for KnownHosts {
    fn from(path: String) -> (file: KnownHosts) {
        KnownHosts { pathname: path }
    }
}

impl vstd::std_specs::convert::FromSpecImpl<String> for KnownHosts {
    open spec fn obeys_from_spec() -> bool {
        true
    }

    closed spec fn from_spec(path: String) -> KnownHosts {
        KnownHosts { pathname: path }
    }
}

/// The known_hosts file made from a path is the file at that path.
pub proof fn lemma_from_path(path: String)
    ensures
        <KnownHosts as vstd::std_specs::convert::FromSpec<String>>::from_spec(path).path() == path@,
{
}

impl ConfigFile for KnownHosts {
    closed spec fn path(&self) -> Seq<char> {
        self.pathname@
    }

    open spec fn entries_in(&self, lines: Seq<Seq<char>>) -> Result<
        Seq<HostView>,
        ErrorKindView,
    > {
        entries_of(self.path(), lines)
    }

    fn pathname<'a>(&'a self) -> (path: &'a str) {
        self.pathname.as_str()
    }

    fn parse_entries(&self, lines: &Vec<String>) -> (r: Result<Vec<Host>, ErrorKind>) {
        let mut hosts: Vec<Host> = Vec::new();
        let mut i: usize = 0;
        proof {
            assert(string_views(lines@).take(0) =~= Seq::empty());
            assert(host_views(hosts@) =~= Seq::empty());
        }
        while i < lines.len()
            invariant
                i <= lines.len(),
                entries_of(self.path(), string_views(lines@).take(i as int)) == Ok::<
                    Seq<HostView>,
                    ErrorKindView,
                >(host_views(hosts@)),
            decreases lines.len() - i,
        {
            let ghost all = string_views(lines@);
            let ghost found = host_views(hosts@);
            proof {
                assert(all.take(i + 1).drop_last() =~= all.take(i as int));
                assert(all.take(i + 1).last() == lines@[i as int]@);
            }
            match process_entry(self.pathname.as_str(), i, lines[i].as_str()) {
                Err(e) => {
                    proof {
                        lemma_entries_fail(self.path(), all, i + 1);
                    }
                    return Err(e);
                },
                Ok(mut more) => {
                    let ghost added = host_views(more@);
                    hosts.append(&mut more);
                    proof {
                        assert(host_views(hosts@) =~= found + added);
                    }
                },
            }
            i += 1;
        }
        proof {
            assert(string_views(lines@).take(i as int) =~= string_views(lines@));
        }
        Ok(hosts)
    }
}

/// Once a line has failed, the lines behind it change nothing.
pub proof fn lemma_entries_fail(path: Seq<char>, lines: Seq<Seq<char>>, n: int)
    requires
        0 <= n <= lines.len(),
        entries_of(path, lines.take(n)) is Err,
    ensures
        entries_of(path, lines) == entries_of(path, lines.take(n)),
    decreases lines.len() - n,
{
    if n == lines.len() {
        assert(lines.take(n) =~= lines);
    } else {
        assert(lines.drop_last().take(n) =~= lines.take(n));
        lemma_entries_fail(path, lines.drop_last(), n);
    }
}

/// A line that is blank, or whose first character that is not white space is `#`,
/// declares no host and is no error.
pub proof fn lemma_blank_and_comment_lines(path: Seq<char>, lineno: nat, line: Seq<char>)
    requires
        trim(line).len() == 0 || trim(line)[0] == '#',
    ensures
        entry_hosts(path, lineno, line) == Ok::<Seq<HostView>, ErrorKindView>(Seq::empty()),
{
}

/// A line that begins with `#` is a comment: it declares no host and is no error.
pub proof fn lemma_comment_line(path: Seq<char>, lineno: nat, line: Seq<char>)
    requires
        line.len() > 0,
        line[0] == '#',
    ensures
        entry_hosts(path, lineno, line) == Ok::<Seq<HostView>, ErrorKindView>(Seq::empty()),
{
    lemma_trim_keeps_start(line);
}

/// A line fails exactly where it consists of a marker and nothing else, and the error
/// carries the file's path, the line's number and the line.
pub proof fn lemma_entry_error(path: Seq<char>, lineno: nat, line: Seq<char>)
    ensures
        entry_hosts(path, lineno, line) is Err <==> trim(line).len() > 0 && trim(line)[0] == '@'
            && words(trim(line)).len() == 1,
        entry_hosts(path, lineno, line) matches Err(e) ==> e == format_error(path, lineno, line),
{
    let text = trim(line);
    if text.len() > 0 {
        lemma_trim_ends(line);
        lemma_first_word_starts_text(text);
    }
}

/// The host list of a line is its first word, or its second where the first is a marker.
/// A host list that does not begin with `|` yields one host for each of its
/// comma-separated names, in order, all with the file's path as their source and the
/// default protocol.
pub proof fn lemma_entry_names(path: Seq<char>, lineno: nat, line: Seq<char>, field: Seq<char>)
    requires
        trim(line).len() > 0,
        trim(line)[0] != '#',
        ({
            let fields = words(trim(line));
            ||| trim(line)[0] != '@' && field == fields[0]
            ||| trim(line)[0] == '@' && fields.len() >= 2 && field == fields[1]
        }),
        field[0] != '|',
    ensures
        entry_hosts(path, lineno, line) == Ok::<Seq<HostView>, ErrorKindView>(
            named_hosts(split(field, ','), path),
        ),
        named_hosts(split(field, ','), path).len() == split(field, ',').len(),
        forall|i: int|
            0 <= i < split(field, ',').len() ==> #[trigger] named_hosts(split(field, ','), path)[i]
                == named_host(split(field, ',')[i], path),
{
    let text = trim(line);
    lemma_trim_ends(line);
    lemma_first_word_starts_text(text);
    if text[0] == '@' {
        lemma_words_nonempty(text, 1);
    }
}

/// A line whose host list begins with `|`, behind a marker or not, declares no host and
/// is no error.
pub proof fn lemma_hashed_entry(path: Seq<char>, lineno: nat, line: Seq<char>)
    requires
        words(trim(line)).len() >= 1,
        ({
            let fields = words(trim(line));
            fields[0][0] == '|' || (fields[0][0] == '@' && fields.len() >= 2 && fields[1][0]
                == '|')
        }),
    ensures
        entry_hosts(path, lineno, line) == Ok::<Seq<HostView>, ErrorKindView>(Seq::empty()),
{
    let text = trim(line);
    if text.len() == 0 {
        assert(text =~= Seq::empty());
        lemma_words_of_empty();
    }
    lemma_trim_ends(line);
    lemma_first_word_starts_text(text);
}

/// A host list of comma-joined names declares one host for each name, in order, each
/// with the file's path as its source and the default protocol.
pub proof fn lemma_host_list_names(path: Seq<char>, field: Seq<char>)
    requires
        field.len() == 0 || field[0] != '|',
    ensures
        host_list(path, field).len() == split(field, ',').len(),
        forall|i: int|
            0 <= i < split(field, ',').len() ==> #[trigger] host_list(path, field)[i]
                == named_host(split(field, ',')[i], path),
{
}

} // verus!
