//! The ways in which the library's operations fail.
use vstd::prelude::*;

verus! {

/// The kinds of error of this library.
#[derive(Debug, Clone, PartialEq, Eq)]
pub enum ErrorKind {
    /// A condition specification that is not of the form `FILENAME,REGEX`, or whose pattern
    /// is no regular expression. Carries the specification.
    ConditionFormat(String),
    /// A line of a known_hosts file without a host list. Carries the file's path, the
    /// line's number, counted from zero, and the line as it was read.
    KnownHostFormat(String, usize, String),
    /// A host whose bookmark would be written outside the output directory. Carries the
    /// host's name and protocol.
    NameError(String, String),
}

/// The mathematical content of an [`ErrorKind`].
pub enum ErrorKindView {
    ConditionFormat(Seq<char>),
    KnownHostFormat(Seq<char>, nat, Seq<char>),
    NameError(Seq<char>, Seq<char>),
}

impl View for ErrorKind {
    type V = ErrorKindView;

    open spec fn view(&self) -> ErrorKindView {
        match *self {
            ErrorKind::ConditionFormat(spec) => ErrorKindView::ConditionFormat(spec@),
            ErrorKind::KnownHostFormat(path, lineno, line) => ErrorKindView::KnownHostFormat(
                path@,
                lineno as nat,
                line@,
            ),
            ErrorKind::NameError(name, protocol) => ErrorKindView::NameError(name@, protocol@),
        }
    }
}

} // verus!
