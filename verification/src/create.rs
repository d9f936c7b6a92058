//! Creation of nested directories and of files in a document tree.
//!
//! A [`Creation`] walks down from a directory, one name at a time: it opens
//! the child directory of that name where there is one and creates it where
//! there is none, and at the end creates the file, if one was asked for.

use vstd::prelude::*;
use vstd::string::*;
use crate::dir::{
    entries_view, find_named, listing_of, names_of, provider_failure, ExternalDir, ExternalDirEntry,
    RowView,
};
use crate::error::{Error, ErrorKind, ErrorView};
use crate::mime::{guess_mime, guessed_mime};
use crate::names::{
    extension, extension_of, invalid_input, is_entry_name, is_name, lemma_strings_view_index,
    option_view, split_path, split_path_spec, strings_view,
};
use crate::provider::{dir_request, file_request, Reply, ReplyView, Request, RequestView};
use crate::uri::{tree_uri_defect, DocUri, Uri, UriView};

verus! {

/// What a creation has made or opened.
#[derive(Debug)]
pub enum Created {
    /// The directory at the end of the path.
    Directory(ExternalDir),
    /// The new file.
    File(DocUri),
}

/// The mathematical value of a [`Created`].
pub enum CreatedView {
    Directory(UriView),
    File(UriView),
}

impl View for Created {
    type V = CreatedView;

    open spec fn view(&self) -> CreatedView {
        match self {
            Created::Directory(dir) => CreatedView::Directory(dir@),
            Created::File(uri) => CreatedView::File(uri@),
        }
    }
}

/// A creation under way.
#[derive(Debug)]
pub struct Creation {
    /// The directory reached so far.
    current: ExternalDir,
    /// The directories of the path; those before `pos` have been entered.
    dirs: Vec<String>,
    pos: usize,
    /// The file to create in the last directory.
    leaf: Option<String>,
    /// Whether a document was asked for; a listing otherwise.
    creating: bool,
}

/// The mathematical value of a [`Creation`].
pub struct CreationView {
    /// The directory reached so far.
    pub current: UriView,
    /// The directories still to enter, the next one first.
    pub remaining: Seq<Seq<char>>,
    /// The file to create in the last directory.
    pub leaf: Option<Seq<char>>,
    /// Whether a document was asked for; a listing otherwise.
    pub creating: bool,
}

impl View for Creation {
    type V = CreationView;

    closed spec fn view(&self) -> CreationView {
        CreationView {
            current: self.current@,
            remaining: strings_view(self.dirs@).skip(self.pos as int),
            leaf: option_view(self.leaf),
            creating: self.creating,
        }
    }
}

/// Where a creation stands: it asks for something, or it has ended.
#[derive(Debug)]
pub enum Progress {
    /// The request to perform; its reply goes to [`Creation::step`].
    Ask(Creation, Request),
    /// The end: what was created or opened, or the failure.
    Done(Result<Created, Error>),
}

/// The mathematical value of a [`Progress`].
pub enum ProgressView {
    Ask(CreationView, RequestView),
    Done(Result<CreatedView, ErrorView>),
}

impl View for Progress {
    type V = ProgressView;

    open spec fn view(&self) -> ProgressView {
        match self {
            Progress::Ask(creation, request) => ProgressView::Ask(creation@, request@),
            Progress::Done(Ok(created)) => ProgressView::Done(Ok(created@)),
            Progress::Done(Err(e)) => ProgressView::Done(Err(e@)),
        }
    }
}

/// An error of kind `AlreadyExists`.
pub open spec fn already_exists(context: Seq<char>) -> ErrorView {
    ErrorView { kind: ErrorKind::AlreadyExists, context }
}

/// The error for a reply that does not answer the request that was made.
pub open spec fn unexpected_reply() -> ErrorView {
    ErrorView {
        kind: ErrorKind::InternalInvariantViolation,
        context: "The reply does not answer the request"@,
    }
}

/// What the provider's answer to a create request holds: the locator of the
/// new document, or why there is none.
pub open spec fn created_document_of(reply: Result<Option<UriView>, Seq<char>>) -> Result<
    UriView,
    ErrorView,
> {
    match reply {
        Err(message) => Err(provider_failure(message)),
        Ok(None) => Err(provider_failure("Failed to create the document, unknown reason"@)),
        Ok(Some(uri)) => match tree_uri_defect(uri.path_segments) {
            Some(defect) => Err(
                provider_failure(
                    "DocumentsContract.createDocument() returned an invalid DocUri: "@ + defect,
                ),
            ),
            None => Ok(uri),
        },
    }
}

/// The view of the provider's answer to a create request.
pub open spec fn created_reply_view(reply: Result<Option<Uri>, String>) -> Result<
    Option<UriView>,
    Seq<char>,
> {
    match reply {
        Ok(Some(uri)) => Ok(Some(uri@)),
        Ok(None) => Ok(None),
        Err(message) => Err(message@),
    }
}

/// Standing in `current` with `remaining` directories to enter: the listing
/// of `current` is asked for, unless nothing is left to do.
pub open spec fn advance(
    current: UriView,
    remaining: Seq<Seq<char>>,
    leaf: Option<Seq<char>>,
) -> ProgressView {
    if remaining.len() == 0 && leaf is None {
        ProgressView::Done(Ok(CreatedView::Directory(current)))
    } else {
        ProgressView::Ask(
            CreationView { current, remaining, leaf, creating: false },
            RequestView::ListChildren { dir: current },
        )
    }
}

/// What follows the listing of the current directory.
///
/// With a directory still to enter: an entry of its name is entered if it is
/// a directory and is an `AlreadyExists` failure if it is a file; without
/// such an entry the directory is created. With only the file left: an entry
/// of its name is an `AlreadyExists` failure, a name without an extension an
/// `InvalidInput` failure; else the file is created with the media type
/// guessed from its extension.
pub open spec fn after_listing(m: CreationView, entries: Seq<RowView>) -> ProgressView {
    if m.remaining.len() > 0 {
        let name = m.remaining[0];
        match find_named(entries, name) {
            Some(entry) => if entry.is_dir() {
                advance(entry.uri, m.remaining.skip(1), m.leaf)
            } else {
                ProgressView::Done(
                    Err(
                        already_exists(
                            "One of the descendant directories in the path already exists, but it is a file"@,
                        ),
                    ),
                )
            },
            None => ProgressView::Ask(
                CreationView { creating: true, ..m },
                dir_request(m.current, name),
            ),
        }
    } else {
        match m.leaf {
            Some(file_name) => if names_of(entries).contains(file_name) {
                ProgressView::Done(
                    Err(already_exists("A file named "@ + (file_name + " already exists"@))),
                )
            } else {
                match extension_of(file_name) {
                    None => ProgressView::Done(Err(invalid_input("File name has no extension"@))),
                    Some(ext) => ProgressView::Ask(
                        CreationView { creating: true, ..m },
                        file_request(m.current, file_name, guessed_mime(ext)),
                    ),
                }
            },
            None => ProgressView::Done(Ok(CreatedView::Directory(m.current))),
        }
    }
}

/// What follows the creation of a document: a new directory is entered, a
/// new file ends the creation.
pub open spec fn after_created(m: CreationView, uri: UriView) -> ProgressView {
    if m.remaining.len() > 0 {
        advance(uri, m.remaining.skip(1), m.leaf)
    } else {
        ProgressView::Done(Ok(CreatedView::File(uri)))
    }
}

/// One step of a creation: from where it stands and the provider's reply to
/// where it stands next.
pub open spec fn step_spec(m: CreationView, reply: ReplyView) -> ProgressView {
    match reply {
        ReplyView::Children(listing) => if m.creating {
            ProgressView::Done(Err(unexpected_reply()))
        } else {
            match listing_of(listing) {
                Err(e) => ProgressView::Done(Err(e)),
                Ok(entries) => after_listing(m, entries),
            }
        },
        ReplyView::Created(created) => if !m.creating {
            ProgressView::Done(Err(unexpected_reply()))
        } else {
            match created_document_of(created) {
                Err(e) => ProgressView::Done(Err(e)),
                Ok(uri) => after_created(m, uri),
            }
        },
    }
}

/// The creation of the directories `dirs`, each inside the one before, and
/// then of the file `leaf`, all below `dir`.
pub open spec fn begin_spec(
    dir: UriView,
    dirs: Seq<Seq<char>>,
    leaf: Option<Seq<char>>,
) -> ProgressView {
    advance(dir, dirs, leaf)
}

/// The error for a name that cannot name an entry of a directory.
pub open spec fn invalid_name() -> ErrorView {
    invalid_input("Invalid filename"@)
}

/// The creation of the directory `name` in `dir`.
pub open spec fn create_dir_spec(dir: UriView, name: Seq<char>) -> ProgressView {
    if is_entry_name(name) {
        begin_spec(dir, seq![name], None)
    } else {
        ProgressView::Done(Err(invalid_name()))
    }
}

/// The creation of the file `file_name` in `dir`.
pub open spec fn create_file_spec(dir: UriView, file_name: Seq<char>) -> ProgressView {
    if is_entry_name(file_name) {
        begin_spec(dir, Seq::empty(), Some(file_name))
    } else {
        ProgressView::Done(Err(invalid_name()))
    }
}

/// The creation of the directory at `path` below `dir`.
pub open spec fn create_dir_at_spec(dir: UriView, path: Seq<char>) -> ProgressView {
    match split_path_spec(path) {
        Err(e) => ProgressView::Done(Err(e)),
        Ok(components) => begin_spec(dir, components, None),
    }
}

/// The creation of the file at `path` below `dir`.
pub open spec fn create_file_at_spec(dir: UriView, path: Seq<char>) -> ProgressView {
    match split_path_spec(path) {
        Err(e) => ProgressView::Done(Err(e)),
        Ok(components) => begin_spec(dir, components.drop_last(), Some(components.last())),
    }
}

impl Creation {
    #[verifier::type_invariant]
    closed spec fn in_range(&self) -> bool {
        self.pos <= self.dirs@.len()
    }

    /// Starts the creation of the directories `dirs`, each inside the one
    /// before, and then of the file `leaf`, all below `dir`.
    pub fn begin(dir: &ExternalDir, dirs: Vec<String>, leaf: Option<String>) -> (p: Progress)
        ensures
            p@ == begin_spec(dir@, strings_view(dirs@), option_view(leaf)),
    {
        assert(strings_view(dirs@).skip(0) =~= strings_view(dirs@));
        Self::proceed(Creation { current: dir.clone(), dirs, pos: 0, leaf, creating: false })
    }

    fn proceed(self) -> (p: Progress)
        requires
            !self@.creating,
        ensures
            p@ == advance(self@.current, self@.remaining, self@.leaf),
    {
        proof {
            use_type_invariant(&self);
        }
        if self.pos == self.dirs.len() && self.leaf.is_none() {
            Progress::Done(Ok(Created::Directory(self.current)))
        } else {
            let request = Request::list(&self.current);
            Progress::Ask(self, request)
        }
    }

    /// The request that this creation waits on an answer to.
    pub fn is_creating(&self) -> (r: bool)
        ensures
            r == self@.creating,
    {
        self.creating
    }

    /// Takes the provider's reply to the request that was asked and says
    /// what comes next.
    pub fn step(self, reply: Reply) -> (p: Progress)
        ensures
            p@ == step_spec(self@, reply@),
    {
        match reply {
            Reply::Children(listing) => {
                if self.creating {
                    return Progress::Done(Err(Self::unexpected()));
                }
                match ExternalDir::entries(listing) {
                    Err(e) => Progress::Done(Err(e)),
                    Ok(entries) => self.listed(&entries),
                }
            },
            Reply::Created(created) => {
                if !self.creating {
                    return Progress::Done(Err(Self::unexpected()));
                }
                match ExternalDir::create_document(created) {
                    Err(e) => Progress::Done(Err(e)),
                    Ok(uri) => self.created(uri),
                }
            },
        }
    }

    fn unexpected() -> (e: Error)
        ensures
            e@ == unexpected_reply(),
    {
        Error::new(
            ErrorKind::InternalInvariantViolation,
            "The reply does not answer the request",
        )
    }

    /// What follows the listing of the current directory.
    pub fn listed(self, entries: &Vec<ExternalDirEntry>) -> (p: Progress)
        ensures
            p@ == after_listing(self@, entries_view(entries@)),
    {
        proof {
            use_type_invariant(&self);
            lemma_strings_view_index(self.dirs@);
        }
        let ghost rows = entries_view(entries@);
        if self.pos < self.dirs.len() {
            assert(self@.remaining[0] == self.dirs@[self.pos as int]@);
            match ExternalDir::position(entries, self.dirs[self.pos].as_str()) {
                Some(i) => {
                    let entry = &entries[i];
                    assert(rows[i as int] == entry@);
                    if entry.is_dir() {
                        let next = Creation {
                            current: ExternalDir::from_entry_uri(entry.uri().clone()),
                            dirs: self.dirs,
                            pos: self.pos + 1,
                            leaf: self.leaf,
                            creating: false,
                        };
                        assert(next@.remaining =~= self@.remaining.skip(1));
                        Self::proceed(next)
                    } else {
                        Progress::Done(
                            Err(
                                Error::new(
                                    ErrorKind::AlreadyExists,
                                    "One of the descendant directories in the path already exists, but it is a file",
                                ),
                            ),
                        )
                    }
                },
                None => {
                    let request = Request::create_dir(
                        &self.current,
                        self.dirs[self.pos].as_str(),
                    );
                    let next = Creation { creating: true, ..self };
                    Progress::Ask(next, request)
                },
            }
        } else {
            assert(self@.remaining.len() == 0);
            match &self.leaf {
                Some(file_name) => {
                    if ExternalDir::file_exists(entries, file_name.as_str()) {
                        Progress::Done(
                            Err(
                                Error::with_detail(
                                    ErrorKind::AlreadyExists,
                                    "A file named ",
                                    String::from_str(file_name.as_str()).concat(
                                        " already exists",
                                    ).as_str(),
                                ),
                            ),
                        )
                    } else {
                        match extension(file_name.as_str()) {
                            None => Progress::Done(
                                Err(
                                    Error::new(
                                        ErrorKind::InvalidInput,
                                        "File name has no extension",
                                    ),
                                ),
                            ),
                            Some(ext) => {
                                let mime = guess_mime(ext);
                                let request = Request::create_file(
                                    &self.current,
                                    file_name.as_str(),
                                    mime,
                                );
                                let next = Creation { creating: true, ..self };
                                Progress::Ask(next, request)
                            },
                        }
                    }
                },
                None => Progress::Done(Ok(Created::Directory(self.current))),
            }
        }
    }

    /// What follows the creation of a document.
    pub fn created(self, uri: DocUri) -> (p: Progress)
        ensures
            p@ == after_created(self@, uri@),
    {
        proof {
            use_type_invariant(&self);
        }
        if self.pos < self.dirs.len() {
            let next = Creation {
                current: ExternalDir::from_entry_uri(uri),
                dirs: self.dirs,
                pos: self.pos + 1,
                leaf: self.leaf,
                creating: false,
            };
            assert(next@.remaining =~= self@.remaining.skip(1));
            Self::proceed(next)
        } else {
            Progress::Done(Ok(Created::File(uri)))
        }
    }
}

impl ExternalDir {
    /// The locator of the document that the provider created, from its
    /// answer to the create request.
    pub fn create_document(reply: Result<Option<Uri>, String>) -> (r: Result<DocUri, Error>)
        ensures
            match r {
                Ok(uri) => created_document_of(created_reply_view(reply)) == Ok::<
                    UriView,
                    ErrorView,
                >(uri@),
                Err(e) => created_document_of(created_reply_view(reply)) == Err::<
                    UriView,
                    ErrorView,
                >(e@),
            },
    {
        match reply {
            Err(message) => Err(
                Error { kind: ErrorKind::ProviderFailure, context: message },
            ),
            Ok(None) => Err(
                Error::new(
                    ErrorKind::ProviderFailure,
                    "Failed to create the document, unknown reason",
                ),
            ),
            Ok(Some(uri)) => match DocUri::from_tree_uri(uri) {
                Ok(doc_uri) => Ok(doc_uri),
                Err(defect) => Err(
                    Error::with_detail(
                        ErrorKind::ProviderFailure,
                        "DocumentsContract.createDocument() returned an invalid DocUri: ",
                        defect.as_str(),
                    ),
                ),
            },
        }
    }

    /// Create a **directory** that is a child of this directory.
    ///
    /// If the directory already exists, it is opened without creating any
    /// directories. A name that is empty, holds a `/` or is `.` or `..` is
    /// refused.
    pub fn create_dir(&self, name: &str) -> (p: Progress)
        ensures
            p@ == create_dir_spec(self@, name@),
    {
        if !is_name(name) {
            return Progress::Done(Err(Error::new(ErrorKind::InvalidInput, "Invalid filename")));
        }
        let mut dirs: Vec<String> = Vec::new();
        dirs.push(String::from_str(name));
        assert(strings_view(dirs@) =~= seq![name@]);
        Creation::begin(self, dirs, None)
    }

    /// Create a **directory** that is a descendant of this directory in the
    /// file tree, and also create all subsequent parent directories of the
    /// directory if they don't exist.
    ///
    /// If the directory already exists at this path, it is opened without
    /// creating any directories.
    ///
    /// The **path** must be a relative path; an absolute path will cause an
    /// error.
    pub fn create_dir_at(&self, path: &str) -> (p: Progress)
        ensures
            p@ == create_dir_at_spec(self@, path@),
    {
        match split_path(path) {
            Err(e) => Progress::Done(Err(e)),
            Ok(components) => Creation::begin(self, components, None),
        }
    }

    /// Create a **file** in this directory. Fails with `AlreadyExists` if an
    /// entry with this name already exists. A name that is empty, holds a
    /// `/` or is `.` or `..` is refused, and so is one without an extension.
    pub fn create_file(&self, file_name: &str) -> (p: Progress)
        ensures
            p@ == create_file_spec(self@, file_name@),
    {
        if !is_name(file_name) {
            return Progress::Done(Err(Error::new(ErrorKind::InvalidInput, "Invalid filename")));
        }
        let dirs: Vec<String> = Vec::new();
        assert(strings_view(dirs@) =~= Seq::<Seq<char>>::empty());
        Creation::begin(self, dirs, Some(String::from_str(file_name)))
    }

    /// Create a **file** that is a descendant of this directory in the file
    /// tree, and also create all subsequent parent directories of the file
    /// if they don't exist.
    ///
    /// Fails with `AlreadyExists` if an entry with this name already exists
    /// at this path.
    ///
    /// The **path** must be a relative path; an absolute path will cause an
    /// error.
    pub fn create_file_at(&self, path: &str) -> (p: Progress)
        ensures
            p@ == create_file_at_spec(self@, path@),
    {
        match split_path(path) {
            Err(e) => Progress::Done(Err(e)),
            Ok(components) => {
                let mut dirs = components;
                let ghost all = strings_view(dirs@);
                proof {
                    lemma_strings_view_index(dirs@);
                }
                let leaf = dirs.pop().unwrap();
                proof {
                    lemma_strings_view_index(dirs@);
                    assert(strings_view(dirs@) =~= all.drop_last());
                }
                Creation::begin(self, dirs, Some(leaf))
            },
        }
    }
}

} // verus!
