//! Document locators: opaque references to the nodes of a document tree.

use vstd::prelude::*;
use vstd::string::*;
use crate::names::{
    clone_strings, doc_path_file_name, doc_path_file_name_of, file_stem, file_stem_of,
    lemma_strings_view_index, strings_view,
};

verus! {

/// A locator as the platform hands it over: its text and the segments of its
/// path, in order.
#[derive(Debug)]
pub struct Uri {
    pub text: String,
    pub path_segments: Vec<String>,
}

/// The mathematical value of a [`Uri`] and of a [`DocUri`].
pub struct UriView {
    pub text: Seq<char>,
    pub path_segments: Seq<Seq<char>>,
}

impl View for Uri {
    type V = UriView;

    open spec fn view(&self) -> UriView {
        UriView { text: self.text@, path_segments: strings_view(self.path_segments@) }
    }
}

impl Clone for Uri {
    fn clone(&self) -> (copy: Self)
        ensures
            copy@ == self@,
    {
        Uri { text: self.text.clone(), path_segments: clone_strings(&self.path_segments) }
    }
}

/// Why path segments do not name a document inside a tree, if they do not.
/// The path must read `tree`, a tree, `document`, a document path.
pub open spec fn tree_uri_defect(segments: Seq<Seq<char>>) -> Option<Seq<char>> {
    if segments.len() < 1 {
        Some("Unexpected end of Uri Segments"@)
    } else if segments[0] != "tree"@ {
        Some("DocUri must have Document Tree"@)
    } else if segments.len() < 2 {
        Some("DocUri has Document Tree, but does not have a value for it"@)
    } else if segments.len() < 3 {
        Some("Unexpected end of Uri Segments"@)
    } else if segments[2] != "document"@ {
        Some("DocUri must have Document Path"@)
    } else if segments.len() < 4 {
        Some("DocUri has Document Path, but does not have a value for it"@)
    } else {
        None
    }
}

/// Why path segments do not name a document, if they do not. The path must
/// read `document`, a document path.
pub open spec fn doc_uri_defect(segments: Seq<Seq<char>>) -> Option<Seq<char>> {
    if segments.len() < 1 {
        Some("Unexpected end of Uri Segments"@)
    } else if segments[0] != "document"@ {
        Some("DocUri must have Document Path"@)
    } else if segments.len() < 2 {
        Some("DocUri has Document Path, but does not have a value for it"@)
    } else {
        None
    }
}

/// Represents a path of a document in shared storage, which could be
/// accessed through a *document tree*.
///
/// Having a valid locator does not mean that the document exists. A locator
/// is never taken apart or extended by the library: a child is reached by
/// asking the provider.
#[derive(Debug)]
pub struct DocUri {
    uri: Uri,
}

impl View for DocUri {
    type V = UriView;

    closed spec fn view(&self) -> UriView {
        self.uri@
    }
}

impl Clone for DocUri {
    fn clone(&self) -> (copy: Self)
        ensures
            copy@ == self@,
    {
        let uri = self.uri.clone();
        proof {
            use_type_invariant(self);
            assert(strings_view(uri.path_segments@).len() == strings_view(
                self.uri.path_segments@,
            ).len());
        }
        DocUri { uri }
    }
}

impl DocUri {
    /// A locator has a last path segment.
    #[verifier::type_invariant]
    closed spec fn has_document_path(&self) -> bool {
        self.uri.path_segments@.len() > 0
    }

    /// Get a [`DocUri`] from a locator that has access to a **document tree**
    /// and a **document path** for identifying a document within that tree.
    pub fn from_tree_uri(uri: Uri) -> (r: Result<Self, String>)
        ensures
            match r {
                Ok(doc) => tree_uri_defect(uri@.path_segments) is None && doc@ == uri@,
                Err(message) => tree_uri_defect(uri@.path_segments) == Some(message@),
            },
    {
        let n = uri.path_segments.len();
        proof {
            lemma_strings_view_index(uri.path_segments@);
        }
        if n < 1 {
            return Err(String::from_str("Unexpected end of Uri Segments"));
        }
        if !is_text(&uri.path_segments[0], "tree") {
            return Err(String::from_str("DocUri must have Document Tree"));
        }
        if n < 2 {
            return Err(
                String::from_str("DocUri has Document Tree, but does not have a value for it"),
            );
        }
        if n < 3 {
            return Err(String::from_str("Unexpected end of Uri Segments"));
        }
        if !is_text(&uri.path_segments[2], "document") {
            return Err(String::from_str("DocUri must have Document Path"));
        }
        if n < 4 {
            return Err(
                String::from_str("DocUri has Document Path, but does not have a value for it"),
            );
        }
        Ok(Self { uri })
    }

    /// Get a [`DocUri`] from a locator that only has a **document path**.
    pub fn from_doc_uri(uri: Uri) -> (r: Result<Self, String>)
        ensures
            match r {
                Ok(doc) => doc_uri_defect(uri@.path_segments) is None && doc@ == uri@,
                Err(message) => doc_uri_defect(uri@.path_segments) == Some(message@),
            },
    {
        let n = uri.path_segments.len();
        proof {
            lemma_strings_view_index(uri.path_segments@);
        }
        if n < 1 {
            return Err(String::from_str("Unexpected end of Uri Segments"));
        }
        if !is_text(&uri.path_segments[0], "document") {
            return Err(String::from_str("DocUri must have Document Path"));
        }
        if n < 2 {
            return Err(
                String::from_str("DocUri has Document Path, but does not have a value for it"),
            );
        }
        Ok(Self { uri })
    }

    /// The locator as the platform handed it over.
    pub fn as_uri(&self) -> (uri: &Uri)
        ensures
            uri@ == self@,
    {
        &self.uri
    }

    /// The locator's text.
    pub fn as_str(&self) -> (text: &str)
        ensures
            text@ == self@.text,
    {
        self.uri.text.as_str()
    }

    /// Get the name of the file or directory for this locator: the file name
    /// in its last path segment.
    pub fn file_name(&self) -> (name: String)
        ensures
            self@.path_segments.len() > 0,
            name@ == doc_path_file_name_of(self@.path_segments.last()),
    {
        proof {
            use_type_invariant(self);
            lemma_strings_view_index(self.uri.path_segments@);
        }
        let last = &self.uri.path_segments[self.uri.path_segments.len() - 1];
        String::from_str(doc_path_file_name(last.as_str()))
    }

    /// Get the name (*without extension*) of the file or directory for this
    /// locator.
    pub fn file_stem(&self) -> (stem: String)
        ensures
            self@.path_segments.len() > 0,
            stem@ == file_stem_of(doc_path_file_name_of(self@.path_segments.last())),
    {
        let file_name = self.file_name();
        String::from_str(file_stem(file_name.as_str()))
    }
}

/// Whether `s` reads `text`.
fn is_text(s: &String, text: &str) -> (r: bool)
    ensures
        r == (s@ == text@),
{
    let other = String::from_str(text);
    *s == other
}

} // verus!
