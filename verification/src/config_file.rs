//! What the readers of the two file formats have in common.
use crate::errors::{ErrorKind, ErrorKindView};
use crate::host::{host_views, Host, HostView};
use crate::text::string_views;
use vstd::prelude::*;
use vstd::string::StringExecFns;

verus! {

/// The view of a parser's result: the hosts found, or the error that ended the parse.
pub open spec fn entries_view(r: Result<Vec<Host>, ErrorKind>) -> Result<
    Seq<HostView>,
    ErrorKindView,
> {
    match r {
        Ok(hosts) => Ok(host_views(hosts@)),
        Err(e) => Err(e@),
    }
}

/// A source file in one of the formats that hosts are read from.
pub trait ConfigFile {
    /// The file's path.
    spec fn path(&self) -> Seq<char>;

    /// What a file at this path with the given lines declares.
    spec fn entries_in(&self, lines: Seq<Seq<char>>) -> Result<Seq<HostView>, ErrorKindView>;

    /// The file's path.
    fn pathname<'a>(&'a self) -> (path: &'a str)
        ensures
            path@ == self.path(),
    ;

    /// The hosts that the lines of the file declare, in the order of the file.
    fn parse_entries(&self, lines: &Vec<String>) -> (r: Result<Vec<Host>, ErrorKind>)
        ensures
            entries_view(r) == self.entries_in(string_views(lines@)),
    ;
}

/// The hosts of one source: what its lines declare, or nothing where they cannot be parsed.
pub open spec fn hosts_of<T: ConfigFile>(source: (T, Vec<String>)) -> Seq<HostView> {
    match source.0.entries_in(string_views(source.1@)) {
        Ok(found) => found,
        Err(_) => Seq::empty(),
    }
}

/// The hosts of all sources that can be parsed, in the order of the sources.
pub open spec fn gathered<T: ConfigFile>(sources: Seq<(T, Vec<String>)>) -> Seq<HostView>
    decreases sources.len(),
{
    if sources.len() == 0 {
        Seq::empty()
    } else {
        gathered(sources.drop_last()) + hosts_of(sources.last())
    }
}

/// The sources that cannot be parsed, each as its path and the error, in the order of
/// the sources.
pub open spec fn failures<T: ConfigFile>(sources: Seq<(T, Vec<String>)>) -> Seq<
    (Seq<char>, ErrorKindView),
>
    decreases sources.len(),
{
    if sources.len() == 0 {
        Seq::empty()
    } else {
        let source = sources.last();
        match source.0.entries_in(string_views(source.1@)) {
            Ok(_) => failures(sources.drop_last()),
            Err(e) => failures(sources.drop_last()).push((source.0.path(), e)),
        }
    }
}

/// The views of a sequence of failures.
pub open spec fn failure_views(skipped: Seq<(String, ErrorKind)>) -> Seq<
    (Seq<char>, ErrorKindView),
> {
    skipped.map_values(|f: (String, ErrorKind)| (f.0@, f.1@))
}

/// Parses each source, a file with the lines that were read from it, and gathers the
/// hosts. A source that cannot be parsed contributes no host and does not end the run:
/// it is reported, with its path and its error, beside the hosts of the others.
pub fn process<T: ConfigFile>(sources: Vec<(T, Vec<String>)>) -> (r: (
    Vec<Host>,
    Vec<(String, ErrorKind)>,
))
    ensures
        host_views(r.0@) == gathered(sources@),
        failure_views(r.1@) == failures(sources@),
{
    let mut hosts: Vec<Host> = Vec::new();
    let mut skipped: Vec<(String, ErrorKind)> = Vec::new();
    let mut i: usize = 0;
    proof {
        assert(sources@.take(0) =~= Seq::empty());
        assert(host_views(hosts@) =~= Seq::empty());
        assert(failure_views(skipped@) =~= Seq::empty());
    }
    while i < sources.len()
        invariant
            i <= sources.len(),
            host_views(hosts@) == gathered(sources@.take(i as int)),
            failure_views(skipped@) == failures(sources@.take(i as int)),
        decreases sources.len() - i,
    {
        let ghost found = host_views(hosts@);
        let ghost failed = failure_views(skipped@);
        proof {
            assert(sources@.take(i + 1).drop_last() =~= sources@.take(i as int));
            assert(sources@.take(i + 1).last() == sources@[i as int]);
        }
        let source = &sources[i];
        match source.0.parse_entries(&source.1) {
            Ok(mut more) => {
                let ghost added = host_views(more@);
                hosts.append(&mut more);
                proof {
                    assert(host_views(hosts@) =~= found + added);
                }
            },
            Err(e) => {
                let path = String::from_str(source.0.pathname());
                proof {
                    assert(found + Seq::<HostView>::empty() =~= found);
                }
                skipped.push((path, e));
                proof {
                    assert(failure_views(skipped@) =~= failed.push((source.0.path(), e@)));
                }
            },
        }
        i += 1;
    }
    proof {
        assert(sources@.take(i as int) =~= sources@);
    }
    (hosts, skipped)
}

} // verus!
