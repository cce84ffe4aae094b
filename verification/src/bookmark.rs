//! The bookmark of a host: a small property-list document that holds the host's address,
//! in a file of the output directory whose name is made of the host's name and protocol.
use crate::errors::{ErrorKind, ErrorKindView};
use crate::host::{Host, HostView};
use crate::order::same_text;
use crate::text::{
    chars_of, is_char, lemma_pieces_joined, lemma_pieces_without_separator, split, split_on,
    str_views,
};
use vstd::prelude::*;
use vstd::string::{StrSliceExecFns, StringExecFns};

verus! {

/// What is to be written for one host: the path of the file, inside the output
/// directory, and what the file holds.
#[derive(Debug, Clone, PartialEq, Eq)]
pub struct Bookmark {
    pub path: String,
    pub document: String,
}

/// The mathematical content of a [`Bookmark`].
pub struct BookmarkView {
    pub path: Seq<char>,
    pub document: Seq<char>,
}

impl View for Bookmark {
    type V = BookmarkView;

    open spec fn view(&self) -> BookmarkView {
        BookmarkView { path: self.path@, document: self.document@ }
    }
}

/// The file name of a host's bookmark: `NAME (PROTOCOL).webloc`.
pub open spec fn file_name_of(host: HostView) -> Seq<char> {
    host.name + " ("@ + host.protocol + ").webloc"@
}

/// The address that a host's bookmark points to: `PROTOCOL://NAME`.
pub open spec fn url_of(host: HostView) -> Seq<char> {
    host.protocol + "://"@ + host.name
}

/// What a bookmark document holds before the address.
pub open spec fn document_opening() -> Seq<char> {
    "<?xml version=\"1.0\" encoding=\"UTF-8\"?>\n<!DOCTYPE plist PUBLIC \"-//Apple//DTD PLIST 1.0//EN\" \"http://www.apple.com/DTDs/PropertyList-1.0.dtd\">\n<plist version=\"1.0\"><dict><key>URL</key><string>"@
}

/// What a bookmark document holds behind the address.
pub open spec fn document_closing() -> Seq<char> {
    "</string></dict></plist>\n"@
}

/// The document of a host's bookmark.
pub open spec fn document_of(host: HostView) -> Seq<char> {
    document_opening() + url_of(host) + document_closing()
}

/// The address that a bookmark document holds: what stands between its opening and its
/// closing.
pub open spec fn payload_of(document: Seq<char>) -> Seq<char> {
    document.subrange(
        document_opening().len() as int,
        document.len() - document_closing().len(),
    )
}

/// Whether a file name, read as a path, is absolute: whether it begins with the path
/// separator `/`.
pub open spec fn is_absolute(file_name: Seq<char>) -> bool {
    file_name.len() > 0 && file_name[0] == '/'
}

/// Whether a file name, read as a path, leaves the directory it is joined to: whether it
/// is absolute, or one of its components, the parts between path separators, is `..`.
pub open spec fn leaves_directory(file_name: Seq<char>) -> bool {
    is_absolute(file_name) || split(file_name, '/').contains(".."@)
}

/// What stands between a directory and the name of a file in it: the path separator,
/// unless the directory is empty or ends with one.
pub open spec fn separator_after(dir: Seq<char>) -> Seq<char> {
    if dir.len() == 0 || dir.last() == '/' {
        Seq::empty()
    } else {
        seq!['/']
    }
}

/// The path of the file `file_name` in the directory `dir`. An absolute file name is
/// not in the directory: it replaces it.
pub open spec fn joined(dir: Seq<char>, file_name: Seq<char>) -> Seq<char> {
    if is_absolute(file_name) {
        file_name
    } else {
        dir + separator_after(dir) + file_name
    }
}

/// The bookmark of a host in the directory `dir`, or the error for a host whose file
/// name would leave the directory.
pub open spec fn bookmark_of(host: HostView, dir: Seq<char>) -> Result<
    BookmarkView,
    ErrorKindView,
> {
    if leaves_directory(file_name_of(host)) {
        Err(ErrorKindView::NameError(host.name, host.protocol))
    } else {
        Ok(BookmarkView { path: joined(dir, file_name_of(host)), document: document_of(host) })
    }
}

/// The view of the result of making a bookmark.
pub open spec fn bookmark_view(r: Result<Bookmark, ErrorKind>) -> Result<
    BookmarkView,
    ErrorKindView,
> {
    match r {
        Ok(b) => Ok(b@),
        Err(e) => Err(e@),
    }
}

/// Whether a file name, read as a path, is absolute.
pub fn is_absolute_name(file_name: &str) -> (absolute: bool)
    ensures
        absolute == is_absolute(file_name@),
{
    !file_name.is_empty() && file_name.get_char(0) == '/'
}

/// Whether a file name, read as a path, leaves the directory it is joined to.
pub fn name_leaves_directory(file_name: &str) -> (leaves: bool)
    ensures
        leaves == leaves_directory(file_name@),
{
    if is_absolute_name(file_name) {
        return true;
    }
    let parts = split_on(file_name, '/');
    let mut i: usize = 0;
    while i < parts.len()
        invariant
            i <= parts.len(),
            str_views(parts@) == split(file_name@, '/'),
            forall|k: int| 0 <= k < i ==> str_views(parts@)[k] != ".."@,
        decreases parts.len() - i,
    {
        if same_text(parts[i], "..") {
            proof {
                assert(str_views(parts@)[i as int] == ".."@);
            }
            return true;
        }
        i += 1;
    }
    false
}

/// The path of the file `file_name` in the directory `dir`.
pub fn join(dir: &str, file_name: &str) -> (path: String)
    ensures
        path@ == joined(dir@, file_name@),
{
    if is_absolute_name(file_name) {
        return String::from_str(file_name);
    }
    let d = chars_of(dir);
    let mut path = String::from_str(dir);
    if d.len() > 0 && d[d.len() - 1] != '/' {
        proof {
            reveal_strlit("/");
            assert("/"@ =~= seq!['/']);
        }
        path.append("/");
    } else {
        proof {
            assert(dir@ + Seq::<char>::empty() =~= dir@);
        }
    }
    path.append(file_name);
    path
}

impl Host {
    /// The file name of the host's bookmark.
    pub fn bookmark_file_name(&self) -> (file_name: String)
        ensures
            file_name@ == file_name_of(self@),
    {
        let mut file_name = String::from_str(self.name());
        file_name.append(" (");
        file_name.append(self.protocol());
        file_name.append(").webloc");
        file_name
    }

    /// The document of the host's bookmark.
    pub fn bookmark_document(&self) -> (document: String)
        ensures
            document@ == document_of(self@),
    {
        let mut document = String::from_str(
            "<?xml version=\"1.0\" encoding=\"UTF-8\"?>\n<!DOCTYPE plist PUBLIC \"-//Apple//DTD PLIST 1.0//EN\" \"http://www.apple.com/DTDs/PropertyList-1.0.dtd\">\n<plist version=\"1.0\"><dict><key>URL</key><string>",
        );
        document.append(self.protocol());
        document.append("://");
        document.append(self.name());
        document.append("</string></dict></plist>\n");
        proof {
            assert(document@ =~= document_of(self@));
        }
        document
    }

    /// What is to be written for the host into the directory `dir`. Fails with
    /// `NameError` where the file name, read as a path, leaves the directory: an absolute
    /// name would replace the directory, and a component `..` would climb out of it, so
    /// that the file would be written elsewhere.
    pub fn bookmark(&self, dir: &str) -> (r: Result<Bookmark, ErrorKind>)
        ensures
            bookmark_view(r) == bookmark_of(self@, dir@),
    {
        let file_name = self.bookmark_file_name();
        if name_leaves_directory(file_name.as_str()) {
            return Err(
                ErrorKind::NameError(
                    String::from_str(self.name()),
                    String::from_str(self.protocol()),
                ),
            );
        }
        let path = join(dir, file_name.as_str());
        let document = self.bookmark_document();
        Ok(Bookmark { path, document })
    }
}

/// A host whose name begins with `/` gets no bookmark, whatever its protocol and the
/// output directory.
pub proof fn lemma_absolute_name_rejected(host: HostView, dir: Seq<char>)
    requires
        host.name.len() > 0,
        host.name[0] == '/',
    ensures
        bookmark_of(host, dir) == Err::<BookmarkView, ErrorKindView>(
            ErrorKindView::NameError(host.name, host.protocol),
        ),
{
    assert(file_name_of(host)[0] == host.name[0]);
}

/// A host whose name has a component `..` with a path separator behind it gets no
/// bookmark, whatever its protocol and the output directory. The component stands at the
/// start of the name or behind a separator: the name is `before`, then `../`, then `after`.
pub proof fn lemma_parent_component_rejected(
    host: HostView,
    dir: Seq<char>,
    before: Seq<char>,
    after: Seq<char>,
)
    requires
        before.len() == 0 || before.last() == '/',
        host.name == before + ".."@ + seq!['/'] + after,
    ensures
        bookmark_of(host, dir) == Err::<BookmarkView, ErrorKindView>(
            ErrorKindView::NameError(host.name, host.protocol),
        ),
{
    reveal_strlit("..");
    let slash = is_char('/');
    let up = ".."@;
    let rest = after + " ("@ + host.protocol + ").webloc"@;
    let file = file_name_of(host);
    assert(file =~= (before + up).push('/') + rest);
    lemma_pieces_joined(before + up, '/', rest, slash);
    lemma_pieces_without_separator(up, slash);
    let head = split(before + up, '/');
    assert(head.len() > 0 && head.last() == up) by {
        if before.len() == 0 {
            assert(before + up =~= up);
        } else {
            let b0 = before.drop_last();
            assert(before + up =~= b0.push('/') + up);
            lemma_pieces_joined(b0, '/', up, slash);
        }
    }
    assert(split(file, '/')[head.len() - 1] == up);
}

/// A host gets no bookmark exactly where its file name leaves the directory, and the
/// error then carries the host's name and protocol.
pub proof fn lemma_rejected_exactly_when_leaving(host: HostView, dir: Seq<char>)
    ensures
        bookmark_of(host, dir) is Err <==> leaves_directory(file_name_of(host)),
        bookmark_of(host, dir) matches Err(e) ==> e == ErrorKindView::NameError(
            host.name,
            host.protocol,
        ),
{
}

/// The path of a bookmark stays inside the output directory: it is the directory, at
/// most a path separator, and the file name, and the file name is not absolute and has
/// no component `..`.
pub proof fn lemma_bookmark_in_directory(host: HostView, dir: Seq<char>)
    ensures
        bookmark_of(host, dir) matches Ok(b) ==> {
            &&& b.path == dir + separator_after(dir) + file_name_of(host)
            &&& dir.is_prefix_of(b.path)
            &&& file_name_of(host).is_suffix_of(b.path)
            &&& !is_absolute(file_name_of(host))
            &&& forall|i: int|
                0 <= i < split(file_name_of(host), '/').len() ==> #[trigger] split(
                    file_name_of(host),
                    '/',
                )[i] != ".."@
        },
{
    let name = file_name_of(host);
    if !leaves_directory(name) {
        let path = joined(dir, name);
        assert(path.subrange(0, dir.len() as int) =~= dir);
        assert(path.subrange(path.len() - name.len(), path.len() as int) =~= name);
    }
}

/// The address read back from a host's bookmark document is `PROTOCOL://NAME`, for the
/// name and protocol of that host.
pub proof fn lemma_document_round_trip(host: HostView, dir: Seq<char>)
    ensures
        payload_of(document_of(host)) == url_of(host),
        bookmark_of(host, dir) matches Ok(b) ==> payload_of(b.document) == host.protocol + "://"@
            + host.name,
{
    assert(payload_of(document_of(host)) =~= url_of(host));
}

} // verus!
