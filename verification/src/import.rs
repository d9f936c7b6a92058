//! The import of a file in two phases: into the local directory first, from
//! there into the document tree.
//!
//! Where the first phase fails nothing has been done. Where the second
//! fails the file of the first phase is deleted again, and where that fails
//! too both errors are reported.

use vstd::prelude::*;
use vstd::string::*;
use crate::error::{unit_view, Error, ErrorKind, ErrorView};
use crate::names::{file_stem, file_stem_of};

verus! {

/// A request of an import to its caller.
#[derive(Debug)]
pub enum ImportRequest {
    /// Create the new file `name` in the local directory and copy the bytes
    /// of the picked file into it. The creation must fail with
    /// `AlreadyExists` where the name is taken.
    CopyIn { name: String },
    /// Create the file at `path` below the root of the document tree and
    /// copy the bytes of the local file into it.
    CopyOut { path: String },
    /// Delete the file `name` of the local directory.
    DeleteLocal { name: String },
}

/// The mathematical value of an [`ImportRequest`].
pub enum ImportRequestView {
    CopyIn { name: Seq<char> },
    CopyOut { path: Seq<char> },
    DeleteLocal { name: Seq<char> },
}

impl View for ImportRequest {
    type V = ImportRequestView;

    open spec fn view(&self) -> ImportRequestView {
        match self {
            ImportRequest::CopyIn { name } => ImportRequestView::CopyIn { name: name@ },
            ImportRequest::CopyOut { path } => ImportRequestView::CopyOut { path: path@ },
            ImportRequest::DeleteLocal { name } => ImportRequestView::DeleteLocal { name: name@ },
        }
    }
}

/// How an import ended.
#[derive(Debug)]
pub enum ImportOutcome {
    /// The file is in both directories; `calendar` is its name without the
    /// extension.
    Imported { calendar: String },
    /// Nothing was done: the local directory already has a file of the name.
    FileExists { calendar: String },
    /// The import failed with `error`. Where the file of the first phase
    /// could not be deleted again, `cleanup` is why.
    Failed { error: Error, cleanup: Option<Error> },
}

/// The mathematical value of an [`ImportOutcome`].
pub enum ImportOutcomeView {
    Imported { calendar: Seq<char> },
    FileExists { calendar: Seq<char> },
    Failed { error: ErrorView, cleanup: Option<ErrorView> },
}

impl View for ImportOutcome {
    type V = ImportOutcomeView;

    open spec fn view(&self) -> ImportOutcomeView {
        match self {
            ImportOutcome::Imported { calendar } => ImportOutcomeView::Imported {
                calendar: calendar@,
            },
            ImportOutcome::FileExists { calendar } => ImportOutcomeView::FileExists {
                calendar: calendar@,
            },
            ImportOutcome::Failed { error, cleanup: Some(d) } => ImportOutcomeView::Failed {
                error: error@,
                cleanup: Some(d@),
            },
            ImportOutcome::Failed { error, cleanup: None } => ImportOutcomeView::Failed {
                error: error@,
                cleanup: None,
            },
        }
    }
}

/// What an import waits for.
#[derive(Debug)]
pub enum ImportStage {
    /// The copy into the local directory.
    CopyingIn,
    /// The copy into the document tree.
    CopyingOut,
    /// The deletion of the local file, after the copy into the document
    /// tree failed with `cause`.
    Deleting { cause: Error },
}

/// The mathematical value of an [`ImportStage`].
pub enum ImportStageView {
    CopyingIn,
    CopyingOut,
    Deleting { cause: ErrorView },
}

impl View for ImportStage {
    type V = ImportStageView;

    open spec fn view(&self) -> ImportStageView {
        match self {
            ImportStage::CopyingIn => ImportStageView::CopyingIn,
            ImportStage::CopyingOut => ImportStageView::CopyingOut,
            ImportStage::Deleting { cause } => ImportStageView::Deleting { cause: cause@ },
        }
    }
}

/// An import under way.
#[derive(Debug)]
pub struct Import {
    /// The directory, below both roots, that takes the file.
    pub directory: String,
    /// The name of the file.
    pub name: String,
    pub stage: ImportStage,
}

/// The mathematical value of an [`Import`].
pub struct ImportView {
    pub directory: Seq<char>,
    pub name: Seq<char>,
    pub stage: ImportStageView,
}

impl View for Import {
    type V = ImportView;

    open spec fn view(&self) -> ImportView {
        ImportView { directory: self.directory@, name: self.name@, stage: self.stage@ }
    }
}

/// Where an import stands: it asks for something, or it has ended.
#[derive(Debug)]
pub enum ImportProgress {
    Ask(Import, ImportRequest),
    Done(ImportOutcome),
}

/// The mathematical value of an [`ImportProgress`].
pub enum ImportProgressView {
    Ask(ImportView, ImportRequestView),
    Done(ImportOutcomeView),
}

impl View for ImportProgress {
    type V = ImportProgressView;

    open spec fn view(&self) -> ImportProgressView {
        match self {
            ImportProgress::Ask(import, request) => ImportProgressView::Ask(import@, request@),
            ImportProgress::Done(outcome) => ImportProgressView::Done(outcome@),
        }
    }
}

/// The reply to an [`ImportRequest`]: whether it was done, whichever request
/// it was.
pub type ImportReply = Result<(), Error>;

/// The first phase of the import of `name` into `directory`.
pub open spec fn import_begin(directory: Seq<char>, name: Seq<char>) -> ImportProgressView {
    ImportProgressView::Ask(
        ImportView { directory, name, stage: ImportStageView::CopyingIn },
        ImportRequestView::CopyIn { name },
    )
}

/// The second phase of the import of `name` into `directory`.
pub open spec fn import_propagate(directory: Seq<char>, name: Seq<char>) -> ImportProgressView {
    ImportProgressView::Ask(
        ImportView { directory, name, stage: ImportStageView::CopyingOut },
        ImportRequestView::CopyOut { path: directory + "/"@ + name },
    )
}

/// One step of an import.
///
/// A first phase that finds the name taken ends the import with
/// `FileExists`; any other failure of it ends the import with that error. A
/// failure of the second phase asks for the deletion of the local file, and
/// the import then ends with that failure, and with the failure of the
/// deletion beside it if there was one.
pub open spec fn import_step(m: ImportView, reply: Result<(), ErrorView>) -> ImportProgressView {
    match (m.stage, reply) {
        (ImportStageView::CopyingIn, Ok(_)) => import_propagate(m.directory, m.name),
        (ImportStageView::CopyingIn, Err(e)) => if e.kind == ErrorKind::AlreadyExists {
            ImportProgressView::Done(
                ImportOutcomeView::FileExists { calendar: file_stem_of(m.name) },
            )
        } else {
            ImportProgressView::Done(ImportOutcomeView::Failed { error: e, cleanup: None })
        },
        (ImportStageView::CopyingOut, Ok(_)) => ImportProgressView::Done(
            ImportOutcomeView::Imported { calendar: file_stem_of(m.name) },
        ),
        (ImportStageView::CopyingOut, Err(e)) => ImportProgressView::Ask(
            ImportView { stage: ImportStageView::Deleting { cause: e }, ..m },
            ImportRequestView::DeleteLocal { name: m.name },
        ),
        (ImportStageView::Deleting { cause }, Ok(_)) => ImportProgressView::Done(
            ImportOutcomeView::Failed { error: cause, cleanup: None },
        ),
        (ImportStageView::Deleting { cause }, Err(d)) => ImportProgressView::Done(
            ImportOutcomeView::Failed { error: cause, cleanup: Some(d) },
        ),
    }
}

impl Import {
    /// Starts the import of the file `name` into `directory`: the first
    /// phase copies it into the local directory.
    pub fn begin(directory: &str, name: &str) -> (p: ImportProgress)
        ensures
            p@ == import_begin(directory@, name@),
    {
        ImportProgress::Ask(
            Import {
                directory: String::from_str(directory),
                name: String::from_str(name),
                stage: ImportStage::CopyingIn,
            },
            ImportRequest::CopyIn { name: String::from_str(name) },
        )
    }

    /// Starts the second phase of the import of the file `name` into
    /// `directory`: it copies the local file into the document tree.
    pub fn propagate(directory: &str, name: &str) -> (p: ImportProgress)
        ensures
            p@ == import_propagate(directory@, name@),
    {
        ImportProgress::Ask(
            Import {
                directory: String::from_str(directory),
                name: String::from_str(name),
                stage: ImportStage::CopyingOut,
            },
            ImportRequest::CopyOut {
                path: String::from_str(directory).concat("/").concat(name),
            },
        )
    }

    /// Takes the reply to the request that was asked and says what comes
    /// next.
    pub fn step(self, reply: ImportReply) -> (p: ImportProgress)
        ensures
            p@ == import_step(self@, unit_view(reply)),
    {
        match (self.stage, reply) {
            (ImportStage::CopyingIn, Ok(_)) => Self::propagate(
                self.directory.as_str(),
                self.name.as_str(),
            ),
            (ImportStage::CopyingIn, Err(e)) => match e.kind {
                ErrorKind::AlreadyExists => ImportProgress::Done(
                    ImportOutcome::FileExists {
                        calendar: String::from_str(file_stem(self.name.as_str())),
                    },
                ),
                _ => ImportProgress::Done(ImportOutcome::Failed { error: e, cleanup: None }),
            },
            (ImportStage::CopyingOut, Ok(_)) => ImportProgress::Done(
                ImportOutcome::Imported {
                    calendar: String::from_str(file_stem(self.name.as_str())),
                },
            ),
            (ImportStage::CopyingOut, Err(e)) => {
                let request = ImportRequest::DeleteLocal { name: self.name.clone() };
                ImportProgress::Ask(
                    Import {
                        directory: self.directory,
                        name: self.name,
                        stage: ImportStage::Deleting { cause: e },
                    },
                    request,
                )
            },
            (ImportStage::Deleting { cause }, Ok(_)) => ImportProgress::Done(
                ImportOutcome::Failed { error: cause, cleanup: None },
            ),
            (ImportStage::Deleting { cause }, Err(d)) => ImportProgress::Done(
                ImportOutcome::Failed { error: cause, cleanup: Some(d) },
            ),
        }
    }
}

impl ImportOutcome {
    /// The message of a failed import: the error, and the failure of the
    /// deletion beside it if there was one. Empty for an import that did not
    /// fail.
    pub fn message(&self) -> (text: String)
        ensures
            text@ == outcome_message(self@),
    {
        match self {
            ImportOutcome::Failed { error, cleanup: None } => String::from_str(
                "Failed to write to external file; deleted internal file.\nError: ",
            ).concat(error.context.as_str()),
            ImportOutcome::Failed { error, cleanup: Some(d) } => String::from_str(
                "Failed to delete internal imported file: ",
            ).concat(d.context.as_str()).concat("\nError: ").concat(error.context.as_str()),
            _ => String::new(),
        }
    }
}

/// The message of a failed import.
pub open spec fn outcome_message(outcome: ImportOutcomeView) -> Seq<char> {
    match outcome {
        ImportOutcomeView::Failed { error, cleanup: None } =>
            "Failed to write to external file; deleted internal file.\nError: "@ + error.context,
        ImportOutcomeView::Failed { error, cleanup: Some(d) } =>
            "Failed to delete internal imported file: "@ + d.context + "\nError: "@
                + error.context,
        _ => Seq::empty(),
    }
}

} // verus!
