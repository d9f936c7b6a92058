//! What holds of an import, run against a model of the local directory and
//! of a document tree that takes the file or refuses it.

use vstd::prelude::*;
use crate::error::ErrorView;
use crate::import::{
    import_begin, import_step, ImportOutcomeView, ImportProgressView, ImportRequestView,
    ImportStageView,
};
use crate::merge_model::taken;
use crate::names::file_stem_of;

verus! {

/// The state of the storage during an import.
pub struct Places {
    /// The names of the files of the local directory.
    pub local: Set<Seq<char>>,
    /// The paths of the files that were copied into the document tree.
    pub remote: Set<Seq<char>>,
    /// Why the document tree refuses the file, if it does.
    pub refusal: Option<ErrorView>,
}

/// What the storage does on a request: its state afterwards and the reply.
pub open spec fn serve_import(places: Places, request: ImportRequestView) -> (
    Places,
    Result<(), ErrorView>,
) {
    match request {
        ImportRequestView::CopyIn { name } => if places.local.contains(name) {
            (places, Err(taken(name)))
        } else {
            (Places { local: places.local.insert(name), ..places }, Ok(()))
        },
        ImportRequestView::CopyOut { path } => match places.refusal {
            Some(e) => (places, Err(e)),
            None => (Places { remote: places.remote.insert(path), ..places }, Ok(())),
        },
        ImportRequestView::DeleteLocal { name } => (
            Places { local: places.local.remove(name), ..places },
            Ok(()),
        ),
    }
}

/// How many requests an import makes at most.
pub open spec fn import_steps_left(p: ImportProgressView) -> nat {
    match p {
        ImportProgressView::Done(_) => 0,
        ImportProgressView::Ask(m, _) => match m.stage {
            ImportStageView::CopyingIn => 3,
            ImportStageView::CopyingOut => 2,
            ImportStageView::Deleting { .. } => 1,
        },
    }
}

/// An import run to its end against the model: the storage afterwards and
/// the outcome.
pub open spec fn run_import(p: ImportProgressView, places: Places) -> (Places, ImportOutcomeView)
    decreases import_steps_left(p),
{
    match p {
        ImportProgressView::Done(outcome) => (places, outcome),
        ImportProgressView::Ask(m, request) => {
            let (next, reply) = serve_import(places, request);
            run_import(import_step(m, reply), next)
        },
    }
}

/// An import either puts the file in both places or leaves the local
/// directory as it was.
///
/// Where the local directory has a file of the name, nothing is done and the
/// outcome is `FileExists`. Where the document tree takes the file, the file
/// is in both places afterwards and the outcome is `Imported`. Where the
/// document tree refuses the file, the file that the first phase created is
/// deleted again: the local directory is as it was, and the outcome is the
/// refusal.
pub proof fn law_import_is_all_or_nothing(directory: Seq<char>, name: Seq<char>, places: Places)
    ensures
        ({
            let (end, outcome) = run_import(import_begin(directory, name), places);
            if places.local.contains(name) {
                &&& end == places
                &&& outcome == ImportOutcomeView::FileExists { calendar: file_stem_of(name) }
            } else if places.refusal is None {
                &&& end.local == places.local.insert(name)
                &&& end.remote == places.remote.insert(directory + "/"@ + name)
                &&& outcome == ImportOutcomeView::Imported { calendar: file_stem_of(name) }
            } else {
                &&& end == places
                &&& outcome == ImportOutcomeView::Failed {
                    error: places.refusal.unwrap(),
                    cleanup: None,
                }
            }
        }),
{
    let start = import_begin(directory, name);
    let (first, reply) = serve_import(places, ImportRequestView::CopyIn { name });
    let second = import_step(start->Ask_0, reply);
    assert(run_import(start, places) == run_import(second, first));
    if !places.local.contains(name) {
        let (then, answer) = serve_import(first, second->Ask_1);
        let third = import_step(second->Ask_0, answer);
        assert(run_import(second, first) == run_import(third, then));
        if places.refusal is Some {
            let (last, deleted) = serve_import(then, third->Ask_1);
            let done = import_step(third->Ask_0, deleted);
            assert(run_import(third, then) == run_import(done, last));
            assert(last.local =~= places.local);
        }
    }
}

} // verus!
