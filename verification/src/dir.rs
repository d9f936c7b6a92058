//! Directories of a document tree and their entries.

use vstd::prelude::*;
use vstd::string::*;
use crate::error::{Error, ErrorKind, ErrorView};
use crate::mime::DIR_MIME_TYPE;
use crate::names::{doc_path_file_name, doc_path_file_name_of, file_stem, file_stem_of};
use crate::uri::{tree_uri_defect, DocUri, Uri, UriView};

verus! {

/// One child of a directory as the provider reports it: the child's locator,
/// its document id, its media type and its flags.
#[derive(Debug)]
pub struct ChildRow {
    pub uri: Uri,
    pub doc_id: String,
    pub mime_type: String,
    pub flags: i32,
}

/// The mathematical value of a [`ChildRow`] and of an [`ExternalDirEntry`].
pub struct RowView {
    pub uri: UriView,
    pub doc_id: Seq<char>,
    pub mime_type: Seq<char>,
    pub flags: i32,
}

impl RowView {
    /// The name under which the child is listed.
    pub open spec fn file_name(self) -> Seq<char> {
        doc_path_file_name_of(self.doc_id)
    }

    /// Whether the child is a directory.
    pub open spec fn is_dir(self) -> bool {
        self.mime_type == DIR_MIME_TYPE@
    }
}

impl View for ChildRow {
    type V = RowView;

    open spec fn view(&self) -> RowView {
        RowView {
            uri: self.uri@,
            doc_id: self.doc_id@,
            mime_type: self.mime_type@,
            flags: self.flags,
        }
    }
}

/// The views of a sequence of rows.
pub open spec fn rows_view(rows: Seq<ChildRow>) -> Seq<RowView> {
    rows.map_values(|row: ChildRow| row@)
}

/// The views of a sequence of entries.
pub open spec fn entries_view(entries: Seq<ExternalDirEntry>) -> Seq<RowView> {
    entries.map_values(|entry: ExternalDirEntry| entry@)
}

/// The names under which the rows are listed, in order.
pub open spec fn names_of(rows: Seq<RowView>) -> Seq<Seq<char>> {
    rows.map_values(|row: RowView| row.file_name())
}

/// The first row listed under `name`, if there is one.
pub open spec fn find_named(rows: Seq<RowView>, name: Seq<char>) -> Option<RowView> {
    match names_of(rows).index_of_first(name) {
        Some(i) => Some(rows[i]),
        None => None,
    }
}

/// A child of a directory: a snapshot taken when the directory was listed.
#[derive(Debug)]
pub struct ExternalDirEntry {
    doc_uri: DocUri,
    doc_id: String,
    mime_type: String,
    flags: i32,
    name: String,
}

impl View for ExternalDirEntry {
    type V = RowView;

    closed spec fn view(&self) -> RowView {
        RowView {
            uri: self.doc_uri@,
            doc_id: self.doc_id@,
            mime_type: self.mime_type@,
            flags: self.flags,
        }
    }
}

impl ExternalDirEntry {
    /// The name kept beside the document id is the file name in it.
    #[verifier::type_invariant]
    closed spec fn name_matches(&self) -> bool {
        self.name@ == doc_path_file_name_of(self.doc_id@)
    }

    /// An entry for the child behind `doc_uri`.
    pub fn new(doc_uri: DocUri, doc_id: String, mime_type: String, flags: i32) -> (entry: Self)
        ensures
            entry@ == (RowView { uri: doc_uri@, doc_id: doc_id@, mime_type: mime_type@, flags }),
    {
        let name = String::from_str(doc_path_file_name(doc_id.as_str()));
        ExternalDirEntry { doc_uri, doc_id, mime_type, flags, name }
    }

    /// Whether the entry is a directory.
    pub fn is_dir(&self) -> (r: bool)
        ensures
            r == self@.is_dir(),
    {
        let dir = String::from_str(DIR_MIME_TYPE);
        self.mime_type == dir
    }

    /// Get an [`ExternalDir`] from this entry if it is a directory.
    pub fn into_dir(self) -> (dir: Option<ExternalDir>)
        ensures
            match dir {
                Some(d) => self@.is_dir() && d@ == self@.uri,
                None => !self@.is_dir(),
            },
    {
        if self.is_dir() {
            Some(ExternalDir { doc_uri: self.doc_uri })
        } else {
            None
        }
    }

    /// Get the name of the file or directory of this entry.
    pub fn file_name(&self) -> (name: &str)
        ensures
            name@ == self@.file_name(),
    {
        proof {
            use_type_invariant(self);
        }
        self.name.as_str()
    }

    /// Get the name (*without extension*) of the file or directory of this entry.
    pub fn file_stem(&self) -> (stem: &str)
        ensures
            stem@ == file_stem_of(self@.file_name()),
    {
        file_stem(self.file_name())
    }

    /// Get the *path-like* object for this entry.
    pub fn uri(&self) -> (uri: &DocUri)
        ensures
            uri@ == self@.uri,
    {
        &self.doc_uri
    }

    /// The entry's media type.
    pub fn mime_type(&self) -> (mime: &str)
        ensures
            mime@ == self@.mime_type,
    {
        self.mime_type.as_str()
    }

    /// Whether the entry is listed under `name`.
    pub fn is_named(&self, name: &String) -> (r: bool)
        ensures
            r == (self@.file_name() == name@),
    {
        proof {
            use_type_invariant(self);
        }
        self.name == *name
    }
}

/// A directory of a document tree. Files in shared storage are reached
/// through the document provider and never through the local file system.
#[derive(Debug)]
pub struct ExternalDir {
    doc_uri: DocUri,
}

impl View for ExternalDir {
    type V = UriView;

    closed spec fn view(&self) -> UriView {
        self.doc_uri@
    }
}

impl Clone for ExternalDir {
    fn clone(&self) -> (copy: Self)
        ensures
            copy@ == self@,
    {
        ExternalDir { doc_uri: self.doc_uri.clone() }
    }
}

/// An error of kind `ProviderFailure`.
pub open spec fn provider_failure(context: Seq<char>) -> ErrorView {
    ErrorView { kind: ErrorKind::ProviderFailure, context }
}

/// The position of the first row whose locator does not name a document
/// inside a tree.
pub open spec fn first_invalid_row(rows: Seq<RowView>) -> Option<int>
    decreases rows.len(),
{
    if rows.len() == 0 {
        None
    } else {
        match first_invalid_row(rows.drop_last()) {
            Some(i) => Some(i),
            None => if tree_uri_defect(rows.last().uri.path_segments) is Some {
                Some(rows.len() - 1)
            } else {
                None
            },
        }
    }
}

/// What a listing reply holds: the rows as entries; the provider's failure;
/// or, where a row's locator is malformed, the defect of the first such row.
pub open spec fn listing_of(reply: Result<Seq<RowView>, Seq<char>>) -> Result<
    Seq<RowView>,
    ErrorView,
> {
    match reply {
        Err(message) => Err(provider_failure("Failed to query entries: "@ + message)),
        Ok(rows) => match first_invalid_row(rows) {
            Some(i) => Err(
                provider_failure(
                    "Listing holds an invalid DocUri: "@ + tree_uri_defect(
                        rows[i].uri.path_segments,
                    ).unwrap(),
                ),
            ),
            None => Ok(rows),
        },
    }
}

/// The view of a listing reply.
pub open spec fn listing_reply_view(reply: Result<Vec<ChildRow>, String>) -> Result<
    Seq<RowView>,
    Seq<char>,
> {
    match reply {
        Ok(rows) => Ok(rows_view(rows@)),
        Err(message) => Err(message@),
    }
}

impl ExternalDir {
    /// The directory behind `doc_uri`, given the provider's answer to whether
    /// the locator names a directory. Returns [`None`] if the document does
    /// not exist or is not a directory, or if the provider failed.
    pub fn new(doc_uri: DocUri, is_dir: Result<bool, String>) -> (dir: Option<Self>)
        ensures
            match dir {
                Some(d) => is_dir == Ok::<bool, String>(true) && d@ == doc_uri@,
                None => is_dir != Ok::<bool, String>(true),
            },
    {
        match is_dir {
            Ok(true) => Some(Self { doc_uri }),
            _ => None,
        }
    }

    /// The directory behind `doc_uri`, given the provider's answer to whether
    /// the locator names a directory; or why there is no handle: the
    /// document is no directory, or the provider failed.
    pub fn open(doc_uri: DocUri, is_dir: Result<bool, String>) -> (r: Result<Self, Error>)
        ensures
            match r {
                Ok(d) => is_dir == Ok::<bool, String>(true) && d@ == doc_uri@,
                Err(e) => e@ == match is_dir {
                    Ok(_) => ErrorView {
                        kind: ErrorKind::WrongKind,
                        context: "The locator does not name a directory"@,
                    },
                    Err(message) => provider_failure(message@),
                } && is_dir != Ok::<bool, String>(true),
            },
    {
        match is_dir {
            Ok(true) => Ok(Self { doc_uri }),
            Ok(false) => Err(
                Error::new(ErrorKind::WrongKind, "The locator does not name a directory"),
            ),
            Err(message) => Err(Error { kind: ErrorKind::ProviderFailure, context: message }),
        }
    }

    /// The directory behind a locator that a listing gave for a directory
    /// or that the provider gave for a new directory.
    pub(crate) fn from_entry_uri(doc_uri: DocUri) -> (dir: Self)
        ensures
            dir@ == doc_uri@,
    {
        Self { doc_uri }
    }

    /// The directory's locator.
    pub fn uri(&self) -> (uri: &DocUri)
        ensures
            uri@ == self@,
    {
        &self.doc_uri
    }

    /// Whether a listing holds an entry under `file_name`.
    pub fn file_exists(entries: &Vec<ExternalDirEntry>, file_name: &str) -> (r: bool)
        ensures
            r == names_of(entries_view(entries@)).contains(file_name@),
    {
        proof {
            names_of(entries_view(entries@)).index_of_first_ensures(file_name@);
        }
        Self::position(entries, file_name).is_some()
    }

    /// The position of the first entry listed under `file_name`.
    pub fn position(entries: &Vec<ExternalDirEntry>, file_name: &str) -> (r: Option<usize>)
        ensures
            match r {
                Some(i) => i < entries@.len() && names_of(entries_view(entries@)).index_of_first(
                    file_name@,
                ) == Some(i as int),
                None => names_of(entries_view(entries@)).index_of_first(file_name@) is None,
            },
    {
        let wanted = String::from_str(file_name);
        let ghost names = names_of(entries_view(entries@));
        let mut i: usize = 0;
        while i < entries.len()
            invariant
                i <= entries.len(),
                wanted@ == file_name@,
                names == names_of(entries_view(entries@)),
                forall|j: int| 0 <= j < i ==> names[j] != file_name@,
            decreases entries.len() - i,
        {
            if entries[i].is_named(&wanted) {
                proof {
                    names.index_of_first_ensures(file_name@);
                    assert(names[i as int] == file_name@);
                    let k = names.index_of_first(file_name@).unwrap();
                    assert(names[k] == file_name@);
                    assert(k == i);
                }
                return Some(i);
            }
            i += 1;
        }
        proof {
            names.index_of_first_ensures(file_name@);
        }
        None
    }

    /// The entries of this directory, from the provider's reply to a listing
    /// request. Every child is listed, in the provider's order.
    pub fn entries(reply: Result<Vec<ChildRow>, String>) -> (r: Result<
        Vec<ExternalDirEntry>,
        Error,
    >)
        ensures
            match r {
                Ok(entries) => listing_of(listing_reply_view(reply)) == Ok::<
                    Seq<RowView>,
                    ErrorView,
                >(entries_view(entries@)),
                Err(e) => listing_of(listing_reply_view(reply)) == Err::<Seq<RowView>, ErrorView>(
                    e@,
                ),
            },
    {
        match reply {
            Err(message) => Err(
                Error::with_detail(
                    ErrorKind::ProviderFailure,
                    "Failed to query entries: ",
                    message.as_str(),
                ),
            ),
            Ok(rows) => {
                let ghost all = rows_view(rows@);
                let mut entries: Vec<ExternalDirEntry> = Vec::new();
                let mut i: usize = 0;
                assert(all.take(0) =~= Seq::<RowView>::empty());
                assert(entries_view(entries@) =~= all.take(0));
                while i < rows.len()
                    invariant
                        i <= rows.len(),
                        all == rows_view(rows@),
                        listing_reply_view(reply) == Ok::<Seq<RowView>, Seq<char>>(all),
                        entries_view(entries@) == all.take(i as int),
                        first_invalid_row(all.take(i as int)) is None,
                    decreases rows.len() - i,
                {
                    let row = &rows[i];
                    proof {
                        assert(all.take(i + 1).drop_last() =~= all.take(i as int));
                        assert(all.take(i + 1).last() == row@);
                    }
                    match DocUri::from_tree_uri(row.uri.clone()) {
                        Ok(doc_uri) => {
                            let ghost before = entries_view(entries@);
                            let entry = ExternalDirEntry::new(
                                doc_uri,
                                row.doc_id.clone(),
                                row.mime_type.clone(),
                                row.flags,
                            );
                            entries.push(entry);
                            assert(entries_view(entries@) =~= before.push(row@));
                            assert(all.take(i + 1) =~= all.take(i as int).push(row@));
                        },
                        Err(message) => {
                            proof {
                                assert(first_invalid_row(all.take(i + 1)) == Some(i as int));
                                lemma_first_invalid_row_prefix(all, i + 1);
                                assert(all[i as int] == row@);
                            }
                            return Err(
                                Error::with_detail(
                                    ErrorKind::ProviderFailure,
                                    "Listing holds an invalid DocUri: ",
                                    message.as_str(),
                                ),
                            );
                        },
                    }
                    i += 1;
                }
                assert(all.take(i as int) =~= all);
                Ok(entries)
            },
        }
    }
}

/// A malformed row found in the first `k` rows is the first malformed row of
/// the whole listing.
pub proof fn lemma_first_invalid_row_prefix(rows: Seq<RowView>, k: int)
    requires
        0 <= k <= rows.len(),
        first_invalid_row(rows.take(k)) is Some,
    ensures
        first_invalid_row(rows) == first_invalid_row(rows.take(k)),
    decreases rows.len(),
{
    if k == rows.len() {
        assert(rows.take(k) =~= rows);
    } else {
        assert(rows.drop_last().take(k) =~= rows.take(k));
        lemma_first_invalid_row_prefix(rows.drop_last(), k);
    }
}

} // verus!
