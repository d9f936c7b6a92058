//! What the library asks of the document provider, and what it takes back.
//!
//! The library performs no storage operation itself. An operation hands its
//! caller a [`Request`]; the caller performs it and hands back the [`Reply`].

use vstd::prelude::*;
use vstd::string::*;
use crate::dir::{rows_view, ChildRow, ExternalDir, RowView};
use crate::mime::DIR_MIME_TYPE;
use crate::names::{base_name, base_name_of};
use crate::uri::{DocUri, Uri, UriView};

verus! {

/// A request to the document provider.
#[derive(Debug)]
pub enum Request {
    /// List the children of a directory.
    ListChildren { dir: DocUri },
    /// Create a document of the given media type in a directory.
    CreateDocument { parent: DocUri, mime: String, display_name: String },
}

/// The mathematical value of a [`Request`].
pub enum RequestView {
    ListChildren { dir: UriView },
    CreateDocument { parent: UriView, mime: Seq<char>, display_name: Seq<char> },
}

impl View for Request {
    type V = RequestView;

    open spec fn view(&self) -> RequestView {
        match self {
            Request::ListChildren { dir } => RequestView::ListChildren { dir: dir@ },
            Request::CreateDocument { parent, mime, display_name } => RequestView::CreateDocument {
                parent: parent@,
                mime: mime@,
                display_name: display_name@,
            },
        }
    }
}

/// The provider's reply to a [`Request`].
#[derive(Debug)]
pub enum Reply {
    /// The children of the directory, or the provider's failure message.
    Children(Result<Vec<ChildRow>, String>),
    /// The locator of the new document; none where the provider gave no
    /// reason for not creating it; or the provider's failure message.
    Created(Result<Option<Uri>, String>),
}

/// The mathematical value of a [`Reply`].
pub enum ReplyView {
    Children(Result<Seq<RowView>, Seq<char>>),
    Created(Result<Option<UriView>, Seq<char>>),
}

impl View for Reply {
    type V = ReplyView;

    open spec fn view(&self) -> ReplyView {
        match self {
            Reply::Children(Ok(rows)) => ReplyView::Children(Ok(rows_view(rows@))),
            Reply::Children(Err(message)) => ReplyView::Children(Err(message@)),
            Reply::Created(Ok(Some(uri))) => ReplyView::Created(Ok(Some(uri@))),
            Reply::Created(Ok(None)) => ReplyView::Created(Ok(None)),
            Reply::Created(Err(message)) => ReplyView::Created(Err(message@)),
        }
    }
}

/// The request that creates the file `file_name` with media type `mime`: the
/// provider is given the name without its extension.
pub open spec fn file_request(parent: UriView, file_name: Seq<char>, mime: Seq<char>) -> RequestView {
    RequestView::CreateDocument { parent, mime, display_name: base_name_of(file_name) }
}

/// The request that creates the directory `name`.
pub open spec fn dir_request(parent: UriView, name: Seq<char>) -> RequestView {
    RequestView::CreateDocument { parent, mime: DIR_MIME_TYPE@, display_name: name }
}

impl Request {
    /// The request that lists `dir`.
    pub fn list(dir: &ExternalDir) -> (request: Request)
        ensures
            request@ == (RequestView::ListChildren { dir: dir@ }),
    {
        Request::ListChildren { dir: dir.uri().clone() }
    }

    /// The request that creates the directory `name` in `parent`.
    pub fn create_dir(parent: &ExternalDir, name: &str) -> (request: Request)
        ensures
            request@ == dir_request(parent@, name@),
    {
        Request::CreateDocument {
            parent: parent.uri().clone(),
            mime: String::from_str(DIR_MIME_TYPE),
            display_name: String::from_str(name),
        }
    }

    /// The request that creates the file `file_name` in `parent`, with the
    /// media type that was found for its extension.
    pub fn create_file(parent: &ExternalDir, file_name: &str, mime: String) -> (request: Request)
        ensures
            request@ == file_request(parent@, file_name@, mime@),
    {
        Request::CreateDocument {
            parent: parent.uri().clone(),
            mime,
            display_name: String::from_str(base_name(file_name)),
        }
    }
}

} // verus!
