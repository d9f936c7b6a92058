//! The merge of two directories.
//!
//! A [`Merge`] lists both directories, copies to each side the files that
//! only the other side has, and compares the files that both have. Where the
//! bytes differ it asks for a decision and applies it. It performs nothing
//! itself: it hands out one [`MergeRequest`] at a time and takes the
//! [`MergeReply`] back.

use vstd::prelude::*;
use vstd::string::*;
use crate::entry::{file_names, files_of, listing_view, Entry, EntryView, Side};
use crate::error::{unit_view, Error, ErrorKind, ErrorView};
use crate::names::{lemma_strings_view_index, strings_view};
use crate::plan::{plan_of, PlanView, SyncPlan};

verus! {

/// What to do with a file that both directories have with different bytes.
#[derive(Debug)]
pub enum ConflictDecision {
    /// Leave both files as they are.
    Cancel,
    /// Replace `A`'s bytes with `B`'s, after a copy of `A`'s file has been
    /// put aside.
    Overwrite,
    /// Copy `B`'s file into `A` under another name and leave `A`'s file as
    /// it is. The name is not checked: choosing a free one is up to whoever
    /// decides.
    RenameIncomingTo(String),
}

/// The mathematical value of a [`ConflictDecision`].
pub enum DecisionView {
    Cancel,
    Overwrite,
    RenameIncomingTo(Seq<char>),
}

impl View for ConflictDecision {
    type V = DecisionView;

    open spec fn view(&self) -> DecisionView {
        match self {
            ConflictDecision::Cancel => DecisionView::Cancel,
            ConflictDecision::Overwrite => DecisionView::Overwrite,
            ConflictDecision::RenameIncomingTo(name) => DecisionView::RenameIncomingTo(name@),
        }
    }
}

/// Where directory `A` lies: `directory` below `root`. Files that are
/// overwritten are put aside below `root/deleted/directory`.
#[derive(Debug)]
pub struct MergeConfig {
    pub root: String,
    pub directory: String,
}

/// The mathematical value of a [`MergeConfig`].
pub struct ConfigView {
    pub root: Seq<char>,
    pub directory: Seq<char>,
}

impl View for MergeConfig {
    type V = ConfigView;

    open spec fn view(&self) -> ConfigView {
        ConfigView { root: self.root@, directory: self.directory@ }
    }
}

/// The path of the file `name` of directory `A`.
pub open spec fn original_path(config: ConfigView, name: Seq<char>) -> Seq<char> {
    config.root + "/"@ + config.directory + "/"@ + name
}

/// The path at which the file `name` of directory `A` is put aside before it
/// is overwritten.
pub open spec fn recovery_path(config: ConfigView, name: Seq<char>) -> Seq<char> {
    config.root + "/deleted/"@ + config.directory + "/"@ + name
}

impl MergeConfig {
    /// The path of the file `name` of directory `A`.
    pub fn original_path(&self, name: &str) -> (path: String)
        ensures
            path@ == original_path(self@, name@),
    {
        String::from_str(self.root.as_str()).concat("/").concat(self.directory.as_str()).concat(
            "/",
        ).concat(name)
    }

    /// The path at which the file `name` of directory `A` is put aside
    /// before it is overwritten.
    pub fn recovery_path(&self, name: &str) -> (path: String)
        ensures
            path@ == recovery_path(self@, name@),
    {
        String::from_str(self.root.as_str()).concat("/deleted/").concat(
            self.directory.as_str(),
        ).concat("/").concat(name)
    }
}

/// A copy that was put aside: where it lies and where the file was. With the
/// two paths a caller can undo the overwrite.
#[derive(Debug)]
pub struct Backup {
    pub recovery_path: String,
    pub original_path: String,
}

/// The mathematical value of a [`Backup`].
pub struct BackupView {
    pub recovery_path: Seq<char>,
    pub original_path: Seq<char>,
}

impl View for Backup {
    type V = BackupView;

    open spec fn view(&self) -> BackupView {
        BackupView { recovery_path: self.recovery_path@, original_path: self.original_path@ }
    }
}

/// A file that could not be compared or reconciled, and why.
#[derive(Debug)]
pub struct Failure {
    pub name: String,
    pub error: Error,
}

/// The mathematical value of a [`Failure`].
pub struct FailureView {
    pub name: Seq<char>,
    pub error: ErrorView,
}

impl View for Failure {
    type V = FailureView;

    open spec fn view(&self) -> FailureView {
        FailureView { name: self.name@, error: self.error@ }
    }
}

/// What a merge did.
#[derive(Debug)]
pub struct MergeReport {
    /// The names under which files were copied into `A`, in order.
    pub copied_to_a: Vec<String>,
    /// The copies that were put aside before an overwrite, in order.
    pub backups: Vec<Backup>,
    /// The files whose reconciliation was given up, in order.
    pub failed: Vec<Failure>,
}

/// The mathematical value of a [`MergeReport`].
pub struct ReportView {
    pub copied_to_a: Seq<Seq<char>>,
    pub backups: Seq<BackupView>,
    pub failed: Seq<FailureView>,
}

impl View for MergeReport {
    type V = ReportView;

    open spec fn view(&self) -> ReportView {
        ReportView {
            copied_to_a: strings_view(self.copied_to_a@),
            backups: self.backups@.map_values(|b: Backup| b@),
            failed: self.failed@.map_values(|f: Failure| f@),
        }
    }
}

/// The report of a merge that has done nothing yet.
pub open spec fn empty_report() -> ReportView {
    ReportView { copied_to_a: Seq::empty(), backups: Seq::empty(), failed: Seq::empty() }
}

/// The end of a merge: what it did, and the error that stopped it if one did.
#[derive(Debug)]
pub struct Finished {
    pub report: MergeReport,
    pub error: Option<Error>,
}

/// The mathematical value of a [`Finished`].
pub struct FinishedView {
    pub report: ReportView,
    pub error: Option<ErrorView>,
}

impl View for Finished {
    type V = FinishedView;

    open spec fn view(&self) -> FinishedView {
        FinishedView {
            report: self.report@,
            error: match self.error {
                Some(e) => Some(e@),
                None => None,
            },
        }
    }
}

/// One piece of work of a merge.
#[derive(Debug)]
pub enum Work {
    /// Copy the file from `B` into `A`.
    CopyIn(String),
    /// Copy the file from `A` into `B`.
    CopyOut(String),
    /// Compare the file in `A` with the file in `B`.
    Compare(String),
}

/// The mathematical value of a [`Work`].
pub enum WorkView {
    CopyIn(Seq<char>),
    CopyOut(Seq<char>),
    Compare(Seq<char>),
}

impl WorkView {
    /// The file that the work is about.
    pub open spec fn name(self) -> Seq<char> {
        match self {
            WorkView::CopyIn(name) => name,
            WorkView::CopyOut(name) => name,
            WorkView::Compare(name) => name,
        }
    }
}

impl View for Work {
    type V = WorkView;

    open spec fn view(&self) -> WorkView {
        match self {
            Work::CopyIn(name) => WorkView::CopyIn(name@),
            Work::CopyOut(name) => WorkView::CopyOut(name@),
            Work::Compare(name) => WorkView::Compare(name@),
        }
    }
}

/// The views of a sequence of work.
pub open spec fn queue_view(queue: Seq<Work>) -> Seq<WorkView> {
    queue.map_values(|w: Work| w@)
}

/// The work of a plan, in the order in which it is done: the copies into
/// `A`, the copies into `B`, the comparisons.
pub open spec fn queue_of(plan: PlanView) -> Seq<WorkView> {
    plan.only_in_b.map_values(|name: Seq<char>| WorkView::CopyIn(name))
        + plan.only_in_a.map_values(|name: Seq<char>| WorkView::CopyOut(name))
        + plan.in_both.map_values(|name: Seq<char>| WorkView::Compare(name))
}

/// A request of a merge to its caller.
#[derive(Debug)]
pub enum MergeRequest {
    /// List the entries of a directory.
    List { side: Side },
    /// Open the file `name` of the directory `from` for reading, create a
    /// new file `new_name` in the other directory, and copy all bytes over.
    /// The creation must fail with `AlreadyExists` where the name is taken.
    Copy { from: Side, name: String, new_name: String },
    /// Read the whole file `name` in both directories.
    ReadBoth { name: String },
    /// Decide what to do with the file `name`, whose bytes are `ours` in `A`
    /// and `theirs` in `B`.
    Resolve { name: String, ours: Vec<u8>, theirs: Vec<u8> },
    /// Copy the file `name` of `A` to `recovery_path`.
    Backup { name: String, recovery_path: String },
    /// Replace the bytes of the file `name` of `A` with `content`.
    Replace { name: String, content: Vec<u8> },
}

/// The mathematical value of a [`MergeRequest`].
pub enum MergeRequestView {
    List { side: Side },
    Copy { from: Side, name: Seq<char>, new_name: Seq<char> },
    ReadBoth { name: Seq<char> },
    Resolve { name: Seq<char>, ours: Seq<u8>, theirs: Seq<u8> },
    Backup { name: Seq<char>, recovery_path: Seq<char> },
    Replace { name: Seq<char>, content: Seq<u8> },
}

impl View for MergeRequest {
    type V = MergeRequestView;

    open spec fn view(&self) -> MergeRequestView {
        match self {
            MergeRequest::List { side } => MergeRequestView::List { side: *side },
            MergeRequest::Copy { from, name, new_name } => MergeRequestView::Copy {
                from: *from,
                name: name@,
                new_name: new_name@,
            },
            MergeRequest::ReadBoth { name } => MergeRequestView::ReadBoth { name: name@ },
            MergeRequest::Resolve { name, ours, theirs } => MergeRequestView::Resolve {
                name: name@,
                ours: ours@,
                theirs: theirs@,
            },
            MergeRequest::Backup { name, recovery_path } => MergeRequestView::Backup {
                name: name@,
                recovery_path: recovery_path@,
            },
            MergeRequest::Replace { name, content } => MergeRequestView::Replace {
                name: name@,
                content: content@,
            },
        }
    }
}

/// The caller's reply to a [`MergeRequest`].
#[derive(Debug)]
pub enum MergeReply {
    Listing(Result<Vec<Entry>, Error>),
    Copied(Result<(), Error>),
    Contents(Result<(Vec<u8>, Vec<u8>), Error>),
    Decision(ConflictDecision),
    BackedUp(Result<(), Error>),
    Replaced(Result<(), Error>),
}

/// The mathematical value of a [`MergeReply`].
pub enum MergeReplyView {
    Listing(Result<Seq<EntryView>, ErrorView>),
    Copied(Result<(), ErrorView>),
    Contents(Result<(Seq<u8>, Seq<u8>), ErrorView>),
    Decision(DecisionView),
    BackedUp(Result<(), ErrorView>),
    Replaced(Result<(), ErrorView>),
}

impl View for MergeReply {
    type V = MergeReplyView;

    open spec fn view(&self) -> MergeReplyView {
        match self {
            MergeReply::Listing(Ok(entries)) => MergeReplyView::Listing(
                Ok(listing_view(entries@)),
            ),
            MergeReply::Listing(Err(e)) => MergeReplyView::Listing(Err(e@)),
            MergeReply::Copied(r) => MergeReplyView::Copied(unit_view(*r)),
            MergeReply::Contents(Ok((ours, theirs))) => MergeReplyView::Contents(
                Ok((ours@, theirs@)),
            ),
            MergeReply::Contents(Err(e)) => MergeReplyView::Contents(Err(e@)),
            MergeReply::Decision(decision) => MergeReplyView::Decision(decision@),
            MergeReply::BackedUp(r) => MergeReplyView::BackedUp(unit_view(*r)),
            MergeReply::Replaced(r) => MergeReplyView::Replaced(unit_view(*r)),
        }
    }
}

/// What a merge waits for.
#[derive(Debug)]
enum Stage {
    ListingA,
    ListingB,
    /// The copy or the contents that the current work asked for.
    Working,
    /// The decision on the current file; `B`'s bytes are kept for it.
    Resolving { theirs: Vec<u8> },
    /// The copy that puts `A`'s file aside.
    BackingUp { theirs: Vec<u8> },
    /// The write of `B`'s bytes into `A`'s file.
    Replacing,
    /// The copy of `B`'s file into `A` under the new name.
    Renaming { new_name: String },
}

/// The mathematical value of what a merge waits for.
pub enum StageView {
    ListingA,
    ListingB,
    Working,
    Resolving { theirs: Seq<u8> },
    BackingUp { theirs: Seq<u8> },
    Replacing,
    Renaming { new_name: Seq<char> },
}

impl View for Stage {
    type V = StageView;

    closed spec fn view(&self) -> StageView {
        match self {
            Stage::ListingA => StageView::ListingA,
            Stage::ListingB => StageView::ListingB,
            Stage::Working => StageView::Working,
            Stage::Resolving { theirs } => StageView::Resolving { theirs: theirs@ },
            Stage::BackingUp { theirs } => StageView::BackingUp { theirs: theirs@ },
            Stage::Replacing => StageView::Replacing,
            Stage::Renaming { new_name } => StageView::Renaming { new_name: new_name@ },
        }
    }
}

/// A merge under way.
#[derive(Debug)]
pub struct Merge {
    config: MergeConfig,
    stage: Stage,
    /// The files of `A`, once it has been listed.
    files_a: Vec<String>,
    /// The work, once both directories have been listed.
    queue: Vec<Work>,
    /// The work before `cursor` is done.
    cursor: usize,
    report: MergeReport,
}

/// The mathematical value of a [`Merge`].
pub struct MergeView {
    pub config: ConfigView,
    pub stage: StageView,
    pub files_a: Seq<Seq<char>>,
    pub queue: Seq<WorkView>,
    pub cursor: nat,
    pub report: ReportView,
}

impl View for Merge {
    type V = MergeView;

    closed spec fn view(&self) -> MergeView {
        MergeView {
            config: self.config@,
            stage: self.stage@,
            files_a: strings_view(self.files_a@),
            queue: queue_view(self.queue@),
            cursor: self.cursor as nat,
            report: self.report@,
        }
    }
}

/// Where a merge stands: it asks for something, or it has ended.
#[derive(Debug)]
pub enum MergeProgress {
    /// The request to perform; its reply goes to [`Merge::step`].
    Ask(Merge, MergeRequest),
    /// The end of the merge.
    Done(Finished),
}

/// The mathematical value of a [`MergeProgress`].
pub enum MergeProgressView {
    Ask(MergeView, MergeRequestView),
    Done(FinishedView),
}

impl View for MergeProgress {
    type V = MergeProgressView;

    open spec fn view(&self) -> MergeProgressView {
        match self {
            MergeProgress::Ask(merge, request) => MergeProgressView::Ask(merge@, request@),
            MergeProgress::Done(finished) => MergeProgressView::Done(finished@),
        }
    }
}

/// The error for a reply that does not answer the request that was made.
pub open spec fn unexpected_merge_reply() -> ErrorView {
    ErrorView {
        kind: ErrorKind::InternalInvariantViolation,
        context: "The reply does not answer the request"@,
    }
}

/// The error that stops a merge when a copy fails. A file that was on one
/// side only when the directories were listed and is found on the other side
/// when it is copied shows stale state: that failure is reported as a
/// violated invariant, any other as it came.
pub open spec fn copy_failure(e: ErrorView) -> ErrorView {
    if e.kind == ErrorKind::AlreadyExists {
        ErrorView {
            kind: ErrorKind::InternalInvariantViolation,
            context: "A file that one directory lacked when listed exists in it: "@ + e.context,
        }
    } else {
        e
    }
}

/// The merge stopped by `error`.
pub open spec fn stopped(m: MergeView, error: ErrorView) -> MergeProgressView {
    MergeProgressView::Done(FinishedView { report: m.report, error: Some(error) })
}

/// The request that starts a piece of work.
pub open spec fn request_for(work: WorkView) -> MergeRequestView {
    match work {
        WorkView::CopyIn(name) => MergeRequestView::Copy { from: Side::B, name, new_name: name },
        WorkView::CopyOut(name) => MergeRequestView::Copy { from: Side::A, name, new_name: name },
        WorkView::Compare(name) => MergeRequestView::ReadBoth { name },
    }
}

/// The merge at its next piece of work: it asks for what the work needs, or
/// ends where no work is left.
pub open spec fn at_work(m: MergeView, cursor: nat, report: ReportView) -> MergeProgressView {
    if cursor < m.queue.len() {
        MergeProgressView::Ask(
            MergeView { stage: StageView::Working, cursor, report, ..m },
            request_for(m.queue[cursor as int]),
        )
    } else {
        MergeProgressView::Done(FinishedView { report, error: None })
    }
}

/// The report with one more file copied into `A`.
pub open spec fn with_copied(report: ReportView, name: Seq<char>) -> ReportView {
    ReportView { copied_to_a: report.copied_to_a.push(name), ..report }
}

/// The report with one more copy put aside.
pub open spec fn with_backup(report: ReportView, backup: BackupView) -> ReportView {
    ReportView { backups: report.backups.push(backup), ..report }
}

/// The report with one more file given up.
pub open spec fn with_failure(report: ReportView, name: Seq<char>, error: ErrorView) -> ReportView {
    ReportView { failed: report.failed.push(FailureView { name, error }), ..report }
}

/// The merge after the current file was given up: the failure is noted and
/// the next piece of work begins.
pub open spec fn given_up(m: MergeView, error: ErrorView) -> MergeProgressView {
    at_work(m, m.cursor + 1, with_failure(m.report, m.queue[m.cursor as int].name(), error))
}

/// One step of a merge: from where it stands and the reply to the request it
/// made to where it stands next.
pub open spec fn merge_step(m: MergeView, reply: MergeReplyView) -> MergeProgressView {
    match (m.stage, reply) {
        (StageView::ListingA, MergeReplyView::Listing(Ok(entries))) => MergeProgressView::Ask(
            MergeView { stage: StageView::ListingB, files_a: file_names(entries), ..m },
            MergeRequestView::List { side: Side::B },
        ),
        (StageView::ListingA, MergeReplyView::Listing(Err(e))) => stopped(m, e),
        (StageView::ListingB, MergeReplyView::Listing(Ok(entries))) => at_work(
            MergeView { queue: queue_of(plan_of(m.files_a, file_names(entries))), ..m },
            0,
            m.report,
        ),
        (StageView::ListingB, MergeReplyView::Listing(Err(e))) => stopped(m, e),
        _ => if m.cursor < m.queue.len() {
            work_step(m, m.queue[m.cursor as int], reply)
        } else {
            stopped(m, unexpected_merge_reply())
        },
    }
}

/// One step of a merge on the piece of work `work`.
pub open spec fn work_step(m: MergeView, work: WorkView, reply: MergeReplyView) -> MergeProgressView {
    match (m.stage, work, reply) {
        (StageView::Working, WorkView::CopyIn(name), MergeReplyView::Copied(Ok(_))) => at_work(
            m,
            m.cursor + 1,
            with_copied(m.report, name),
        ),
        (StageView::Working, WorkView::CopyOut(_), MergeReplyView::Copied(Ok(_))) => at_work(
            m,
            m.cursor + 1,
            m.report,
        ),
        (StageView::Working, WorkView::CopyIn(_), MergeReplyView::Copied(Err(e))) => stopped(
            m,
            copy_failure(e),
        ),
        (StageView::Working, WorkView::CopyOut(_), MergeReplyView::Copied(Err(e))) => stopped(
            m,
            copy_failure(e),
        ),
        (StageView::Working, WorkView::Compare(_), MergeReplyView::Contents(Err(e))) => given_up(
            m,
            e,
        ),
        (
            StageView::Working,
            WorkView::Compare(name),
            MergeReplyView::Contents(Ok((ours, theirs))),
        ) => if ours == theirs {
            at_work(m, m.cursor + 1, m.report)
        } else {
            MergeProgressView::Ask(
                MergeView { stage: StageView::Resolving { theirs }, ..m },
                MergeRequestView::Resolve { name, ours, theirs },
            )
        },
        (
            StageView::Resolving { theirs },
            WorkView::Compare(name),
            MergeReplyView::Decision(decision),
        ) => match decision {
            DecisionView::Cancel => at_work(m, m.cursor + 1, m.report),
            DecisionView::Overwrite => MergeProgressView::Ask(
                MergeView { stage: StageView::BackingUp { theirs }, ..m },
                MergeRequestView::Backup { name, recovery_path: recovery_path(m.config, name) },
            ),
            DecisionView::RenameIncomingTo(new_name) => MergeProgressView::Ask(
                MergeView { stage: StageView::Renaming { new_name }, ..m },
                MergeRequestView::Copy { from: Side::B, name, new_name },
            ),
        },
        (
            StageView::BackingUp { theirs },
            WorkView::Compare(name),
            MergeReplyView::BackedUp(Ok(_)),
        ) => MergeProgressView::Ask(
            MergeView {
                stage: StageView::Replacing,
                report: with_backup(
                    m.report,
                    BackupView {
                        recovery_path: recovery_path(m.config, name),
                        original_path: original_path(m.config, name),
                    },
                ),
                ..m
            },
            MergeRequestView::Replace { name, content: theirs },
        ),
        (
            StageView::BackingUp { .. },
            WorkView::Compare(_),
            MergeReplyView::BackedUp(Err(e)),
        ) => given_up(m, e),
        (StageView::Replacing, WorkView::Compare(_), MergeReplyView::Replaced(Ok(_))) => at_work(
            m,
            m.cursor + 1,
            m.report,
        ),
        (StageView::Replacing, WorkView::Compare(_), MergeReplyView::Replaced(Err(e))) => given_up(
            m,
            e,
        ),
        (
            StageView::Renaming { new_name },
            WorkView::Compare(_),
            MergeReplyView::Copied(Ok(_)),
        ) => at_work(m, m.cursor + 1, with_copied(m.report, new_name)),
        (
            StageView::Renaming { .. },
            WorkView::Compare(_),
            MergeReplyView::Copied(Err(e)),
        ) => given_up(m, e),
        _ => stopped(m, unexpected_merge_reply()),
    }
}

/// The merge of two directories at its start: it asks for the listing of `A`.
pub open spec fn merge_begin(config: ConfigView) -> MergeProgressView {
    MergeProgressView::Ask(
        MergeView {
            config,
            stage: StageView::ListingA,
            files_a: Seq::empty(),
            queue: Seq::empty(),
            cursor: 0,
            report: empty_report(),
        },
        MergeRequestView::List { side: Side::A },
    )
}

/// Whether two byte strings are equal.
pub fn bytes_equal(a: &Vec<u8>, b: &Vec<u8>) -> (r: bool)
    ensures
        r == (a@ == b@),
{
    if a.len() != b.len() {
        return false;
    }
    let mut i: usize = 0;
    while i < a.len()
        invariant
            i <= a.len(),
            a.len() == b.len(),
            forall|j: int| 0 <= j < i ==> a@[j] == b@[j],
        decreases a.len() - i,
    {
        if a[i] != b[i] {
            return false;
        }
        i += 1;
    }
    assert(a@ =~= b@);
    true
}

impl Work {
    /// The file that the work is about.
    pub fn name(&self) -> (name: &String)
        ensures
            name@ == self@.name(),
    {
        match self {
            Work::CopyIn(name) => name,
            Work::CopyOut(name) => name,
            Work::Compare(name) => name,
        }
    }

    /// The request that starts the work.
    pub fn request(&self) -> (request: MergeRequest)
        ensures
            request@ == request_for(self@),
    {
        match self {
            Work::CopyIn(name) => MergeRequest::Copy {
                from: Side::B,
                name: name.clone(),
                new_name: name.clone(),
            },
            Work::CopyOut(name) => MergeRequest::Copy {
                from: Side::A,
                name: name.clone(),
                new_name: name.clone(),
            },
            Work::Compare(name) => MergeRequest::ReadBoth { name: name.clone() },
        }
    }
}

impl SyncPlan {
    /// The work of the plan, in the order in which it is done.
    pub fn queue(&self) -> (queue: Vec<Work>)
        ensures
            queue_view(queue@) == queue_of(self@),
    {
        let mut queue: Vec<Work> = Vec::new();
        let n_in = self.only_in_b.len();
        let n_out = self.only_in_a.len();
        proof {
            lemma_strings_view_index(self.only_in_b@);
            lemma_strings_view_index(self.only_in_a@);
            lemma_strings_view_index(self.in_both@);
        }
        let mut i: usize = 0;
        while i < n_in
            invariant
                i <= n_in,
                n_in == self.only_in_b@.len(),
                queue@.len() == i,
                forall|j: int|
                    0 <= j < i ==> (#[trigger] queue@[j])@ == WorkView::CopyIn(
                        self.only_in_b@[j]@,
                    ),
            decreases n_in - i,
        {
            queue.push(Work::CopyIn(self.only_in_b[i].clone()));
            i += 1;
        }
        i = 0;
        while i < n_out
            invariant
                i <= n_out,
                n_in == self.only_in_b@.len(),
                n_out == self.only_in_a@.len(),
                queue@.len() == n_in + i,
                forall|j: int|
                    0 <= j < n_in ==> (#[trigger] queue@[j])@ == WorkView::CopyIn(
                        self.only_in_b@[j]@,
                    ),
                forall|j: int|
                    0 <= j < i ==> (#[trigger] queue@[n_in + j])@ == WorkView::CopyOut(
                        self.only_in_a@[j]@,
                    ),
            decreases n_out - i,
        {
            let ghost before = queue@;
            queue.push(Work::CopyOut(self.only_in_a[i].clone()));
            assert forall|j: int| 0 <= j < i + 1 implies (#[trigger] queue@[n_in + j])@
                == WorkView::CopyOut(self.only_in_a@[j]@) by {
                if j < i {
                    assert(queue@[n_in + j] == before[n_in + j]);
                }
            }
            i += 1;
        }
        i = 0;
        while i < self.in_both.len()
            invariant
                i <= self.in_both@.len(),
                n_in == self.only_in_b@.len(),
                n_out == self.only_in_a@.len(),
                queue@.len() == n_in + n_out + i,
                forall|j: int|
                    0 <= j < n_in ==> (#[trigger] queue@[j])@ == WorkView::CopyIn(
                        self.only_in_b@[j]@,
                    ),
                forall|j: int|
                    0 <= j < n_out ==> (#[trigger] queue@[n_in + j])@ == WorkView::CopyOut(
                        self.only_in_a@[j]@,
                    ),
                forall|j: int|
                    0 <= j < i ==> (#[trigger] queue@[n_in + n_out + j])@ == WorkView::Compare(
                        self.in_both@[j]@,
                    ),
            decreases self.in_both@.len() - i,
        {
            let ghost before = queue@;
            queue.push(Work::Compare(self.in_both[i].clone()));
            assert forall|j: int| 0 <= j < n_out implies (#[trigger] queue@[n_in + j])@
                == WorkView::CopyOut(self.only_in_a@[j]@) by {
                assert(queue@[n_in + j] == before[n_in + j]);
            }
            assert forall|j: int| 0 <= j < i + 1 implies (#[trigger] queue@[n_in + n_out + j])@
                == WorkView::Compare(self.in_both@[j]@) by {
                if j < i {
                    assert(queue@[n_in + n_out + j] == before[n_in + n_out + j]);
                }
            }
            i += 1;
        }
        proof {
            let wanted = queue_of(self@);
            let got = queue_view(queue@);
            assert(got.len() == wanted.len());
            assert forall|j: int| 0 <= j < got.len() implies got[j] == wanted[j] by {
                if j < n_in {
                } else if j < n_in + n_out {
                    assert(queue@[n_in + (j - n_in)]@ == WorkView::CopyOut(
                        self.only_in_a@[j - n_in]@,
                    ));
                } else {
                    assert(queue@[n_in + n_out + (j - n_in - n_out)]@ == WorkView::Compare(
                        self.in_both@[j - n_in - n_out]@,
                    ));
                }
            }
            assert(got =~= wanted);
        }
        queue
    }
}

impl Merge {
    /// Starts the merge of directory `A`, which lies where `config` says,
    /// with directory `B`.
    pub fn begin(config: MergeConfig) -> (p: MergeProgress)
        ensures
            p@ == merge_begin(config@),
    {
        let merge = Merge {
            config,
            stage: Stage::ListingA,
            files_a: Vec::new(),
            queue: Vec::new(),
            cursor: 0,
            report: MergeReport {
                copied_to_a: Vec::new(),
                backups: Vec::new(),
                failed: Vec::new(),
            },
        };
        assert(merge@.files_a =~= Seq::<Seq<char>>::empty());
        assert(merge@.queue =~= Seq::<WorkView>::empty());
        assert(merge@.report.copied_to_a =~= Seq::<Seq<char>>::empty());
        assert(merge@.report.backups =~= Seq::<BackupView>::empty());
        assert(merge@.report.failed =~= Seq::<FailureView>::empty());
        MergeProgress::Ask(merge, MergeRequest::List { side: Side::A })
    }

    /// The file that the merge is working on, if it is working on one.
    pub fn current_file(&self) -> (name: Option<&String>)
        ensures
            match name {
                Some(n) => self@.cursor < self@.queue.len() && n@ == self@.queue[self@.cursor as int].name(),
                None => self@.cursor >= self@.queue.len(),
            },
    {
        if self.cursor < self.queue.len() {
            Some(self.queue[self.cursor].name())
        } else {
            None
        }
    }

    fn stop(self, error: Error) -> (p: MergeProgress)
        ensures
            p@ == stopped(self@, error@),
    {
        MergeProgress::Done(Finished { report: self.report, error: Some(error) })
    }

    fn unexpected(self) -> (p: MergeProgress)
        ensures
            p@ == stopped(self@, unexpected_merge_reply()),
    {
        self.stop(
            Error::new(
                ErrorKind::InternalInvariantViolation,
                "The reply does not answer the request",
            ),
        )
    }

    /// Goes on with the next piece of work.
    fn advance(self) -> (p: MergeProgress)
        requires
            self@.cursor < self@.queue.len(),
        ensures
            p@ == at_work(self@, self@.cursor + 1, self@.report),
    {
        let n = self.queue.len();
        assert(queue_view(self.queue@).len() == n);
        let next = Merge { stage: Stage::Working, cursor: self.cursor + 1, ..self };
        next.work()
    }

    /// Asks for what the work at the cursor needs, or ends the merge.
    fn work(self) -> (p: MergeProgress)
        ensures
            p@ == at_work(self@, self@.cursor, self@.report),
    {
        if self.cursor < self.queue.len() {
            let request = self.queue[self.cursor].request();
            let merge = Merge { stage: Stage::Working, ..self };
            MergeProgress::Ask(merge, request)
        } else {
            MergeProgress::Done(Finished { report: self.report, error: None })
        }
    }

    /// Notes that the current file was given up and goes on.
    fn give_up(self, error: Error) -> (p: MergeProgress)
        requires
            self@.cursor < self@.queue.len(),
        ensures
            p@ == given_up(self@, error@),
    {
        let merge = self;
        let name = merge.queue[merge.cursor].name().clone();
        let ghost before = merge@;
        let mut report = merge.report;
        report.failed.push(Failure { name, error });
        assert(report@.failed =~= before.report.failed.push(
            FailureView { name: before.queue[before.cursor as int].name(), error: error@ },
        ));
        let next = Merge {
            config: merge.config,
            stage: merge.stage,
            files_a: merge.files_a,
            queue: merge.queue,
            cursor: merge.cursor,
            report,
        };
        next.advance()
    }

    /// Notes that a file was copied into `A` under `name` and goes on.
    fn copied(self, name: String) -> (p: MergeProgress)
        requires
            self@.cursor < self@.queue.len(),
        ensures
            p@ == at_work(self@, self@.cursor + 1, with_copied(self@.report, name@)),
    {
        let ghost before = self@;
        let mut report = self.report;
        report.copied_to_a.push(name);
        assert(report@.copied_to_a =~= before.report.copied_to_a.push(name@));
        let next = Merge {
            config: self.config,
            stage: self.stage,
            files_a: self.files_a,
            queue: self.queue,
            cursor: self.cursor,
            report,
        };
        next.advance()
    }

    /// The error that stops a merge when a copy fails.
    pub fn copy_failure(e: Error) -> (error: Error)
        ensures
            error@ == copy_failure(e@),
    {
        match e.kind {
            ErrorKind::AlreadyExists => Error::with_detail(
                ErrorKind::InternalInvariantViolation,
                "A file that one directory lacked when listed exists in it: ",
                e.context.as_str(),
            ),
            _ => e,
        }
    }

    /// Takes the reply to the request that was asked and says what comes
    /// next.
    pub fn step(self, reply: MergeReply) -> (p: MergeProgress)
        ensures
            p@ == merge_step(self@, reply@),
    {
        match (&self.stage, reply) {
            (Stage::ListingA, MergeReply::Listing(Ok(entries))) => {
                let files_a = files_of(&entries);
                let merge = Merge { stage: Stage::ListingB, files_a, ..self };
                MergeProgress::Ask(merge, MergeRequest::List { side: Side::B })
            },
            (Stage::ListingA, MergeReply::Listing(Err(e))) => self.stop(e),
            (Stage::ListingB, MergeReply::Listing(Ok(entries))) => {
                let files_b = files_of(&entries);
                let plan = SyncPlan::new(&self.files_a, &files_b);
                let queue = plan.queue();
                let merge = Merge { queue, cursor: 0, ..self };
                merge.work()
            },
            (Stage::ListingB, MergeReply::Listing(Err(e))) => self.stop(e),
            (_, reply) => {
                if self.cursor < self.queue.len() {
                    self.work_step(reply)
                } else {
                    self.unexpected()
                }
            },
        }
    }

    fn work_step(self, reply: MergeReply) -> (p: MergeProgress)
        requires
            self@.cursor < self@.queue.len(),
            !(self@.stage is ListingA && reply@ is Listing),
            !(self@.stage is ListingB && reply@ is Listing),
        ensures
            p@ == work_step(self@, self@.queue[self@.cursor as int], reply@),
    {
        let ghost work = self@.queue[self@.cursor as int];
        assert(work == self.queue@[self.cursor as int]@);
        let name = self.queue[self.cursor].name().clone();
        let comparing = match &self.queue[self.cursor] {
            Work::Compare(_) => true,
            _ => false,
        };
        let copying_in = match &self.queue[self.cursor] {
            Work::CopyIn(_) => true,
            _ => false,
        };
        let mut merge = self;
        let stage = merge.take_stage();
        match (stage, reply) {
            (Stage::Working, MergeReply::Copied(Ok(_))) => {
                if comparing {
                    merge.unexpected()
                } else if copying_in {
                    merge.copied(name)
                } else {
                    merge.advance()
                }
            },
            (Stage::Working, MergeReply::Copied(Err(e))) => {
                if comparing {
                    merge.unexpected()
                } else {
                    merge.stop(Self::copy_failure(e))
                }
            },
            (Stage::Working, MergeReply::Contents(Err(e))) => {
                if comparing {
                    merge.give_up(e)
                } else {
                    merge.unexpected()
                }
            },
            (Stage::Working, MergeReply::Contents(Ok((ours, theirs)))) => {
                if !comparing {
                    merge.unexpected()
                } else if bytes_equal(&ours, &theirs) {
                    merge.advance()
                } else {
                    let kept = copy_bytes(&theirs);
                    merge.stage = Stage::Resolving { theirs: kept };
                    MergeProgress::Ask(merge, MergeRequest::Resolve { name, ours, theirs })
                }
            },
            (Stage::Resolving { theirs }, MergeReply::Decision(decision)) => {
                if !comparing {
                    merge.unexpected()
                } else {
                    match decision {
                        ConflictDecision::Cancel => merge.advance(),
                        ConflictDecision::Overwrite => {
                            let recovery_path = merge.config.recovery_path(name.as_str());
                            merge.stage = Stage::BackingUp { theirs };
                            MergeProgress::Ask(merge, MergeRequest::Backup { name, recovery_path })
                        },
                        ConflictDecision::RenameIncomingTo(new_name) => {
                            merge.stage = Stage::Renaming { new_name: new_name.clone() };
                            MergeProgress::Ask(
                                merge,
                                MergeRequest::Copy { from: Side::B, name, new_name },
                            )
                        },
                    }
                }
            },
            (Stage::BackingUp { theirs }, MergeReply::BackedUp(Ok(_))) => {
                if !comparing {
                    merge.unexpected()
                } else {
                    let backup = Backup {
                        recovery_path: merge.config.recovery_path(name.as_str()),
                        original_path: merge.config.original_path(name.as_str()),
                    };
                    let ghost before = merge.report@;
                    merge.report.backups.push(backup);
                    assert(merge.report@.backups =~= before.backups.push(backup@));
                    merge.stage = Stage::Replacing;
                    MergeProgress::Ask(merge, MergeRequest::Replace { name, content: theirs })
                }
            },
            (Stage::BackingUp { .. }, MergeReply::BackedUp(Err(e))) => {
                if comparing {
                    merge.give_up(e)
                } else {
                    merge.unexpected()
                }
            },
            (Stage::Replacing, MergeReply::Replaced(Ok(_))) => {
                if comparing {
                    merge.advance()
                } else {
                    merge.unexpected()
                }
            },
            (Stage::Replacing, MergeReply::Replaced(Err(e))) => {
                if comparing {
                    merge.give_up(e)
                } else {
                    merge.unexpected()
                }
            },
            (Stage::Renaming { new_name }, MergeReply::Copied(Ok(_))) => {
                if comparing {
                    merge.copied(new_name)
                } else {
                    merge.unexpected()
                }
            },
            (Stage::Renaming { .. }, MergeReply::Copied(Err(e))) => {
                if comparing {
                    merge.give_up(e)
                } else {
                    merge.unexpected()
                }
            },
            _ => merge.unexpected(),
        }
    }

    /// Takes the stage out and leaves `Working` in its place.
    fn take_stage(&mut self) -> (stage: Stage)
        ensures
            stage@ == old(self)@.stage,
            final(self)@ == (MergeView { stage: StageView::Working, ..old(self)@ }),
    {
        let mut stage = Stage::Working;
        std::mem::swap(&mut self.stage, &mut stage);
        stage
    }
}

/// A copy of a byte string.
pub fn copy_bytes(bytes: &Vec<u8>) -> (copy: Vec<u8>)
    ensures
        copy@ == bytes@,
{
    let mut copy: Vec<u8> = Vec::new();
    let mut i: usize = 0;
    while i < bytes.len()
        invariant
            i <= bytes.len(),
            copy@ =~= bytes@.take(i as int),
        decreases bytes.len() - i,
    {
        copy.push(bytes[i]);
        i += 1;
    }
    assert(bytes@.take(i as int) =~= bytes@);
    copy
}

} // verus!
