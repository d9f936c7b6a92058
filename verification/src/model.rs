//! A model of the document provider, against which the creation of
//! directories and files is run in proofs.
//!
//! The model holds, for each directory, the rows that a listing of it gives,
//! in order. A created document is appended to its parent's listing, and a
//! created directory starts out empty.

use vstd::prelude::*;
use crate::create::{step_spec, CreatedView, ProgressView};
use crate::dir::RowView;
use crate::error::ErrorView;
use crate::mime::{guessed_mime, DIR_MIME_TYPE};
use crate::names::{base_name_of, extension_of};
use crate::provider::{ReplyView, RequestView};
use crate::uri::{tree_uri_defect, UriView};

verus! {

/// The state of a document tree.
pub struct Tree {
    /// The listing of each directory, by its locator.
    pub children: Map<UriView, Seq<RowView>>,
    /// The bytes of each file, by its locator.
    pub bytes: Map<UriView, Seq<u8>>,
}

/// The row that the provider lists for a new document, from the parent's
/// locator, the media type and the display name that it was given.
pub type Naming = spec_fn(UriView, Seq<char>, Seq<char>) -> RowView;

/// Whether the provider lists what it creates as it was asked to: under a
/// locator inside the tree, with the media type given, and a directory under
/// the name given.
pub open spec fn faithful(naming: Naming) -> bool {
    &&& forall|parent: UriView, mime: Seq<char>, name: Seq<char>|
        tree_uri_defect((#[trigger] naming(parent, mime, name)).uri.path_segments) is None
    &&& forall|parent: UriView, mime: Seq<char>, name: Seq<char>|
        (#[trigger] naming(parent, mime, name)).mime_type == mime
    &&& forall|parent: UriView, name: Seq<char>|
        !name.contains('/') ==> (#[trigger] naming(parent, DIR_MIME_TYPE@, name)).file_name()
            == name
}

/// Whether the provider lists the file `file_name`, once created, under that
/// name.
pub open spec fn lists_file_as_named(naming: Naming, file_name: Seq<char>) -> bool {
    match extension_of(file_name) {
        Some(ext) => forall|parent: UriView|
            (#[trigger] naming(
                parent,
                guessed_mime(ext),
                base_name_of(file_name),
            )).file_name() == file_name,
        None => true,
    }
}

/// The failure message of the model for a locator that names no directory.
pub open spec fn no_such_directory() -> Seq<char> {
    "No such directory"@
}

/// What the provider does on a request: the tree afterwards and the reply.
pub open spec fn serve(tree: Tree, naming: Naming, request: RequestView) -> (Tree, ReplyView) {
    match request {
        RequestView::ListChildren { dir } => if tree.children.contains_key(dir) {
            (tree, ReplyView::Children(Ok(tree.children[dir])))
        } else {
            (tree, ReplyView::Children(Err(no_such_directory())))
        },
        RequestView::CreateDocument { parent, mime, display_name } => if tree.children.contains_key(
            parent,
        ) {
            let row = naming(parent, mime, display_name);
            let listed = tree.children.insert(parent, tree.children[parent].push(row));
            let children = if row.is_dir() && !listed.contains_key(row.uri) {
                listed.insert(row.uri, Seq::empty())
            } else {
                listed
            };
            (Tree { children, ..tree }, ReplyView::Created(Ok(Some(row.uri))))
        } else {
            (tree, ReplyView::Created(Err(no_such_directory())))
        },
    }
}

/// How many steps a creation has left at most.
pub open spec fn steps_left(p: ProgressView) -> nat {
    match p {
        ProgressView::Done(_) => 0,
        ProgressView::Ask(m, _) => {
            let names = m.remaining.len() + if m.leaf is Some { 1nat } else { 0nat };
            2 * names + if m.creating { 1nat } else { 2nat }
        },
    }
}

/// A creation run to its end against the model: the tree afterwards and the
/// result.
pub open spec fn run(p: ProgressView, tree: Tree, naming: Naming) -> (
    Tree,
    Result<CreatedView, ErrorView>,
)
    decreases steps_left(p),
{
    match p {
        ProgressView::Done(result) => (tree, result),
        ProgressView::Ask(m, request) => {
            let (next, reply) = serve(tree, naming, request);
            run(step_spec(m, reply), next, naming)
        },
    }
}

} // verus!
