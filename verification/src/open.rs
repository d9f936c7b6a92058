//! Opening files of a document tree and resolving children of a locator.
//!
//! Both are done by the provider: the library says what to ask it and reads
//! its answer.

use vstd::prelude::*;
use vstd::string::*;
use crate::dir::{provider_failure, ExternalDir, ExternalDirEntry};
use crate::error::{Error, ErrorKind, ErrorView};
use crate::names::{invalid_input, option_view, path_is_absolute};
use crate::options::{mode_of, OpenOptions};
use crate::uri::{doc_uri_defect, tree_uri_defect, DocUri, Uri, UriView};

verus! {

/// What to ask the provider in order to open a file: the locator to start
/// from, the relative path that the provider has to resolve from there, if
/// any, and the mode string.
#[derive(Debug)]
pub struct OpenRequest {
    pub uri: DocUri,
    pub path: Option<String>,
    pub mode: String,
}

/// The mathematical value of an [`OpenRequest`].
pub struct OpenRequestView {
    pub uri: UriView,
    pub path: Option<Seq<char>>,
    pub mode: Seq<char>,
}

impl View for OpenRequest {
    type V = OpenRequestView;

    open spec fn view(&self) -> OpenRequestView {
        OpenRequestView {
            uri: self.uri@,
            path: option_view(self.path),
            mode: self.mode@,
        }
    }
}

/// What the provider's answer to an open request holds: the file
/// descriptor, or why there is none.
pub open spec fn opened_of(reply: Result<Option<i32>, Seq<char>>) -> Result<i32, ErrorView> {
    match reply {
        Ok(Some(fd)) => Ok(fd),
        Ok(None) => Err(provider_failure("Failed to open file because ContentProvider crashed"@)),
        Err(message) => Err(ErrorView { kind: ErrorKind::NotFound, context: message }),
    }
}

/// What the provider's answer to the resolution of a child holds: the
/// child's locator, or why there is none.
pub open spec fn joined_of(reply: Option<UriView>) -> Result<UriView, ErrorView> {
    match reply {
        None => Err(invalid_input("Passed in an invalid Uri to joinDocUri"@)),
        Some(uri) => if tree_uri_defect(uri.path_segments) is None || doc_uri_defect(
            uri.path_segments,
        ) is None {
            Ok(uri)
        } else {
            Err(provider_failure("joinDocUri returned an invalid DocUri"@))
        },
    }
}

/// The view of the provider's answer to an open request.
pub open spec fn open_reply_view(reply: Result<Option<i32>, String>) -> Result<
    Option<i32>,
    Seq<char>,
> {
    match reply {
        Ok(fd) => Ok(fd),
        Err(message) => Err(message@),
    }
}

impl OpenRequest {
    /// The file descriptor that the provider opened, from its answer. The
    /// descriptor is open and owned by the caller, who has to close it.
    pub fn opened(reply: Result<Option<i32>, String>) -> (r: Result<i32, Error>)
        ensures
            match r {
                Ok(fd) => opened_of(open_reply_view(reply)) == Ok::<i32, ErrorView>(fd),
                Err(e) => opened_of(open_reply_view(reply)) == Err::<i32, ErrorView>(e@),
            },
    {
        match reply {
            Ok(Some(fd)) => Ok(fd),
            Ok(None) => Err(
                Error::new(
                    ErrorKind::ProviderFailure,
                    "Failed to open file because ContentProvider crashed",
                ),
            ),
            Err(message) => Err(Error { kind: ErrorKind::NotFound, context: message }),
        }
    }
}

impl DocUri {
    /// What to ask the provider to open the file behind this locator with
    /// the given mode (**options**).
    pub fn open_file(&self, options: OpenOptions) -> (request: OpenRequest)
        ensures
            request@ == (OpenRequestView { uri: self@, path: None, mode: mode_of(options) }),
    {
        OpenRequest { uri: self.clone(), path: None, mode: options.to_string() }
    }

    /// The locator of a child, from the provider's answer to the resolution
    /// of a path below a locator. A locator is joined with a path by the
    /// provider only, never by working on its text.
    pub fn join(reply: Option<Uri>) -> (r: Result<DocUri, Error>)
        ensures
            match r {
                Ok(uri) => joined_of(option_uri_view(reply)) == Ok::<
                    UriView,
                    ErrorView,
                >(uri@),
                Err(e) => joined_of(option_uri_view(reply)) == Err::<
                    UriView,
                    ErrorView,
                >(e@),
            },
    {
        match reply {
            None => Err(
                Error::new(ErrorKind::InvalidInput, "Passed in an invalid Uri to joinDocUri"),
            ),
            Some(uri) => {
                let copy = uri.clone();
                match DocUri::from_tree_uri(uri) {
                    Ok(doc) => Ok(doc),
                    Err(_) => match DocUri::from_doc_uri(copy) {
                        Ok(doc) => Ok(doc),
                        Err(_) => Err(
                            Error::new(
                                ErrorKind::ProviderFailure,
                                "joinDocUri returned an invalid DocUri",
                            ),
                        ),
                    },
                }
            },
        }
    }
}

/// The view of an optional locator.
pub open spec fn option_uri_view(uri: Option<Uri>) -> Option<UriView> {
    match uri {
        Some(uri) => Some(uri@),
        None => None,
    }
}

impl ExternalDirEntry {
    /// What to ask the provider to open this entry's file. See
    /// [`DocUri::open_file`].
    pub fn open_file(&self, options: OpenOptions) -> (request: OpenRequest)
        ensures
            request@ == (OpenRequestView { uri: self@.uri, path: None, mode: mode_of(options) }),
    {
        self.uri().open_file(options)
    }
}

impl ExternalDir {
    /// What to ask the provider to open a file that is a descendant of this
    /// directory in the file tree. See [`DocUri::open_file`].
    ///
    /// The **path** must be a relative path; an absolute path will cause an
    /// error.
    pub fn open_file(&self, path: &str, options: OpenOptions) -> (r: Result<OpenRequest, Error>)
        ensures
            match r {
                Ok(request) => !path_is_absolute(path@) && request@ == (OpenRequestView {
                    uri: self@,
                    path: Some(path@),
                    mode: mode_of(options),
                }),
                Err(e) => path_is_absolute(path@) && e@ == invalid_input(
                    "Path argument must be a relative path; provided absolute path"@,
                ),
            },
    {
        if path.unicode_len() > 0 && path.get_char(0) == '/' {
            return Err(
                Error::new(
                    ErrorKind::InvalidInput,
                    "Path argument must be a relative path; provided absolute path",
                ),
            );
        }
        Ok(
            OpenRequest {
                uri: self.uri().clone(),
                path: Some(String::from_str(path)),
                mode: options.to_string(),
            },
        )
    }
}

} // verus!
