//! A model of the two directories of a merge and of whoever decides on
//! conflicts, against which a merge is run in proofs.

use vstd::prelude::*;
use crate::entry::{EntryView, Side};
use crate::error::{ErrorKind, ErrorView};
use crate::merge::{
    merge_step, DecisionView, FinishedView, MergeProgressView, MergeReplyView,
    MergeRequestView, StageView,
};

verus! {

/// The state of the two directories and of the place where files are put
/// aside.
pub struct Stores {
    /// What a listing of `A` gives.
    pub listing_a: Seq<EntryView>,
    /// What a listing of `B` gives.
    pub listing_b: Seq<EntryView>,
    /// The bytes of each file of `A`, by name.
    pub a: Map<Seq<char>, Seq<u8>>,
    /// The bytes of each file of `B`, by name.
    pub b: Map<Seq<char>, Seq<u8>>,
    /// The bytes of each file that was put aside, by path.
    pub recovery: Map<Seq<char>, Seq<u8>>,
}

/// Who decides on conflicts: from a file's name, its bytes in `A` and its
/// bytes in `B` to a decision.
pub type Resolver = spec_fn(Seq<char>, Seq<u8>, Seq<u8>) -> DecisionView;

/// The failure of the model for a file that is not there.
pub open spec fn missing(name: Seq<char>) -> ErrorView {
    ErrorView { kind: ErrorKind::NotFound, context: name }
}

/// The failure of the model for a name that is taken.
pub open spec fn taken(name: Seq<char>) -> ErrorView {
    ErrorView { kind: ErrorKind::AlreadyExists, context: name }
}

/// The files of one directory.
pub open spec fn files_on(stores: Stores, side: Side) -> Map<Seq<char>, Seq<u8>> {
    match side {
        Side::A => stores.a,
        Side::B => stores.b,
    }
}

/// What the directories do on a request: their state afterwards and the
/// reply.
pub open spec fn serve_merge(stores: Stores, resolver: Resolver, request: MergeRequestView) -> (
    Stores,
    MergeReplyView,
) {
    match request {
        MergeRequestView::List { side } => (
            stores,
            MergeReplyView::Listing(
                Ok(
                    match side {
                        Side::A => stores.listing_a,
                        Side::B => stores.listing_b,
                    },
                ),
            ),
        ),
        MergeRequestView::Copy { from, name, new_name } => {
            let source = files_on(stores, from);
            let target = match from {
                Side::A => stores.b,
                Side::B => stores.a,
            };
            if !source.contains_key(name) {
                (stores, MergeReplyView::Copied(Err(missing(name))))
            } else if target.contains_key(new_name) {
                (stores, MergeReplyView::Copied(Err(taken(new_name))))
            } else {
                let filled = target.insert(new_name, source[name]);
                (
                    match from {
                        Side::A => Stores { b: filled, ..stores },
                        Side::B => Stores { a: filled, ..stores },
                    },
                    MergeReplyView::Copied(Ok(())),
                )
            }
        },
        MergeRequestView::ReadBoth { name } => if stores.a.contains_key(name)
            && stores.b.contains_key(name) {
            (stores, MergeReplyView::Contents(Ok((stores.a[name], stores.b[name]))))
        } else {
            (stores, MergeReplyView::Contents(Err(missing(name))))
        },
        MergeRequestView::Resolve { name, ours, theirs } => (
            stores,
            MergeReplyView::Decision(resolver(name, ours, theirs)),
        ),
        MergeRequestView::Backup { name, recovery_path } => if stores.a.contains_key(name) {
            (
                Stores { recovery: stores.recovery.insert(recovery_path, stores.a[name]), ..stores },
                MergeReplyView::BackedUp(Ok(())),
            )
        } else {
            (stores, MergeReplyView::BackedUp(Err(missing(name))))
        },
        MergeRequestView::Replace { name, content } => if stores.a.contains_key(name) {
            (Stores { a: stores.a.insert(name, content), ..stores }, MergeReplyView::Replaced(Ok(())))
        } else {
            (stores, MergeReplyView::Replaced(Err(missing(name))))
        },
    }
}

/// How far a merge is from having listed both directories.
pub open spec fn listings_left(p: MergeProgressView) -> nat {
    match p {
        MergeProgressView::Ask(m, _) => match m.stage {
            StageView::ListingA => 2,
            StageView::ListingB => 1,
            _ => 0,
        },
        MergeProgressView::Done(_) => 0,
    }
}

/// How many requests a merge that has listed both directories makes at most.
pub open spec fn requests_left(p: MergeProgressView) -> nat {
    match p {
        MergeProgressView::Ask(m, _) => {
            let work = if m.cursor < m.queue.len() {
                (m.queue.len() - m.cursor) as nat
            } else {
                0nat
            };
            5 * work + match m.stage {
                StageView::Working => 4nat,
                StageView::Resolving { .. } => 3nat,
                StageView::BackingUp { .. } => 2nat,
                _ => 1nat,
            }
        },
        MergeProgressView::Done(_) => 0,
    }
}

/// How a merge that was run against the model ended.
pub struct Ending {
    /// The directories afterwards.
    pub stores: Stores,
    /// The requests that the merge made, in order.
    pub trace: Seq<MergeRequestView>,
    /// What the merge reported.
    pub finished: FinishedView,
}

/// A merge run to its end against the model.
pub open spec fn run_merge(p: MergeProgressView, stores: Stores, resolver: Resolver) -> Ending
    decreases listings_left(p), requests_left(p),
{
    match p {
        MergeProgressView::Done(finished) => Ending { stores, trace: Seq::empty(), finished },
        MergeProgressView::Ask(m, request) => {
            let (next, reply) = serve_merge(stores, resolver, request);
            let end = run_merge(merge_step(m, reply), next, resolver);
            Ending { trace: seq![request] + end.trace, ..end }
        },
    }
}

} // verus!
