//! What holds of a merge, run against the model of the two directories.

use vstd::prelude::*;
use crate::entry::{file_names, Side};
use crate::error::ErrorView;
use crate::merge::{
    at_work, copy_failure, empty_report, merge_begin, merge_step, original_path, queue_of,
    recovery_path, request_for, with_backup, with_copied, with_failure, work_step, BackupView,
    ConfigView, DecisionView, FinishedView, MergeProgressView, MergeReplyView, MergeRequestView,
    MergeView, ReportView, StageView, WorkView,
};
use crate::merge_model::{missing, run_merge, serve_merge, taken, Ending, Resolver, Stores};
use crate::plan::{is_among, is_not_among, lemma_filter_members, plan_of, PlanView};

verus! {

/// What one piece of work does to the directories and to the report, the
/// requests it makes, and the error with which it stops the merge, if it
/// does.
pub struct Effect {
    pub stores: Stores,
    pub report: ReportView,
    pub trace: Seq<MergeRequestView>,
    pub fatal: Option<ErrorView>,
}

/// What the copy of the file `name` from one directory into the other under
/// `new_name` does to the directories, and whether it fails.
pub open spec fn copy_effect(stores: Stores, from: Side, name: Seq<char>, new_name: Seq<char>) -> (
    Stores,
    Result<(), ErrorView>,
) {
    match from {
        Side::B => if !stores.b.contains_key(name) {
            (stores, Err(missing(name)))
        } else if stores.a.contains_key(new_name) {
            (stores, Err(taken(new_name)))
        } else {
            (Stores { a: stores.a.insert(new_name, stores.b[name]), ..stores }, Ok(()))
        },
        Side::A => if !stores.a.contains_key(name) {
            (stores, Err(missing(name)))
        } else if stores.b.contains_key(new_name) {
            (stores, Err(taken(new_name)))
        } else {
            (Stores { b: stores.b.insert(new_name, stores.a[name]), ..stores }, Ok(()))
        },
    }
}

/// What the comparison of the file `name` does, where both directories have
/// it with different bytes: the decision is asked for once, with the bytes
/// of both files, and applied.
pub open spec fn conflict_effect(
    config: ConfigView,
    name: Seq<char>,
    stores: Stores,
    resolver: Resolver,
    report: ReportView,
) -> Effect {
    let ours = stores.a[name];
    let theirs = stores.b[name];
    let read = MergeRequestView::ReadBoth { name };
    let resolve = MergeRequestView::Resolve { name, ours, theirs };
    match resolver(name, ours, theirs) {
        DecisionView::Cancel => Effect { stores, report, trace: seq![read, resolve], fatal: None },
        DecisionView::Overwrite => Effect {
            stores: Stores {
                recovery: stores.recovery.insert(recovery_path(config, name), ours),
                a: stores.a.insert(name, theirs),
                ..stores
            },
            report: with_backup(
                report,
                BackupView {
                    recovery_path: recovery_path(config, name),
                    original_path: original_path(config, name),
                },
            ),
            trace: seq![
                read,
                resolve,
                MergeRequestView::Backup { name, recovery_path: recovery_path(config, name) },
                MergeRequestView::Replace { name, content: theirs },
            ],
            fatal: None,
        },
        DecisionView::RenameIncomingTo(new_name) => {
            let (copied, result) = copy_effect(stores, Side::B, name, new_name);
            Effect {
                stores: copied,
                report: match result {
                    Ok(_) => with_copied(report, new_name),
                    Err(e) => with_failure(report, name, e),
                },
                trace: seq![
                    read,
                    resolve,
                    MergeRequestView::Copy { from: Side::B, name, new_name },
                ],
                fatal: None,
            }
        },
    }
}

/// What one piece of work does.
pub open spec fn effect_of(
    config: ConfigView,
    work: WorkView,
    stores: Stores,
    resolver: Resolver,
    report: ReportView,
) -> Effect {
    match work {
        WorkView::CopyIn(name) => {
            let (copied, result) = copy_effect(stores, Side::B, name, name);
            Effect {
                stores: copied,
                report: match result {
                    Ok(_) => with_copied(report, name),
                    Err(_) => report,
                },
                trace: seq![request_for(work)],
                fatal: match result {
                    Ok(_) => None,
                    Err(e) => Some(copy_failure(e)),
                },
            }
        },
        WorkView::CopyOut(name) => {
            let (copied, result) = copy_effect(stores, Side::A, name, name);
            Effect {
                stores: copied,
                report,
                trace: seq![request_for(work)],
                fatal: match result {
                    Ok(_) => None,
                    Err(e) => Some(copy_failure(e)),
                },
            }
        },
        WorkView::Compare(name) => if !(stores.a.contains_key(name) && stores.b.contains_key(
            name,
        )) {
            Effect {
                stores,
                report: with_failure(report, name, missing(name)),
                trace: seq![request_for(work)],
                fatal: None,
            }
        } else if stores.a[name] == stores.b[name] {
            Effect { stores, report, trace: seq![request_for(work)], fatal: None }
        } else {
            conflict_effect(config, name, stores, resolver, report)
        },
    }
}

/// The work from position `i` on, done piece by piece: how the merge ends.
pub open spec fn process(
    config: ConfigView,
    queue: Seq<WorkView>,
    i: nat,
    report: ReportView,
    stores: Stores,
    resolver: Resolver,
) -> Ending
    decreases queue.len() - i,
{
    if i >= queue.len() {
        Ending { stores, trace: Seq::empty(), finished: FinishedView { report, error: None } }
    } else {
        let e = effect_of(config, queue[i as int], stores, resolver, report);
        match e.fatal {
            Some(error) => Ending {
                stores: e.stores,
                trace: e.trace,
                finished: FinishedView { report: e.report, error: Some(error) },
            },
            None => {
                let rest = process(config, queue, i + 1, e.report, e.stores, resolver);
                Ending { trace: e.trace + rest.trace, ..rest }
            },
        }
    }
}

/// A merge that asks `request` goes on from the reply to it.
proof fn lemma_unfold(m: MergeView, request: MergeRequestView, stores: Stores, resolver: Resolver)
    ensures
        run_merge(MergeProgressView::Ask(m, request), stores, resolver) == ({
            let (next, reply) = serve_merge(stores, resolver, request);
            let end = run_merge(merge_step(m, reply), next, resolver);
            Ending { trace: seq![request] + end.trace, ..end }
        }),
{
}

/// A merge that has ended has made no request.
proof fn lemma_done(finished: FinishedView, stores: Stores, resolver: Resolver)
    ensures
        run_merge(MergeProgressView::Done(finished), stores, resolver) == (Ending {
            stores,
            trace: Seq::empty(),
            finished,
        }),
{
}

/// The ending `rest` with the requests `trace` made before it.
pub open spec fn after(trace: Seq<MergeRequestView>, rest: Ending) -> Ending {
    Ending { trace: trace + rest.trace, ..rest }
}

/// The ending of a merge that a piece of work stopped.
pub open spec fn stopped_with(e: Effect) -> Ending {
    Ending {
        stores: e.stores,
        trace: e.trace,
        finished: FinishedView { report: e.report, error: e.fatal },
    }
}

/// The machine does one piece of work as [`effect_of`] says.
proof fn lemma_item(m: MergeView, i: nat, report: ReportView, stores: Stores, resolver: Resolver)
    requires
        i < m.queue.len(),
    ensures
        ({
            let e = effect_of(m.config, m.queue[i as int], stores, resolver, report);
            run_merge(at_work(m, i, report), stores, resolver) == if e.fatal is Some {
                stopped_with(e)
            } else {
                after(e.trace, run_merge(at_work(m, i + 1, e.report), e.stores, resolver))
            }
        }),
{
    let work = m.queue[i as int];
    let e = effect_of(m.config, work, stores, resolver, report);
    let here = MergeView { stage: StageView::Working, cursor: i, report, ..m };
    let first = request_for(work);
    assert(at_work(m, i, report) == MergeProgressView::Ask(here, first));
    lemma_unfold(here, first, stores, resolver);
    let (s1, reply1) = serve_merge(stores, resolver, first);
    let p1 = merge_step(here, reply1);
    assert(p1 == work_step(here, work, reply1));
    let whole = run_merge(at_work(m, i, report), stores, resolver);
    assert(whole == after(seq![first], run_merge(p1, s1, resolver)));
    assert forall|c: nat, r: ReportView| at_work(here, c, r) == at_work(m, c, r) by {}
    match work {
        WorkView::CopyIn(name) => {
            if e.fatal is Some {
                lemma_done(FinishedView { report, error: e.fatal }, s1, resolver);
                assert(whole.trace =~= e.trace);
            }
        },
        WorkView::CopyOut(name) => {
            if e.fatal is Some {
                lemma_done(FinishedView { report, error: e.fatal }, s1, resolver);
                assert(whole.trace =~= e.trace);
            }
        },
        WorkView::Compare(name) => {
            if !(stores.a.contains_key(name) && stores.b.contains_key(name)) {
            } else if stores.a[name] == stores.b[name] {
            } else {
                let ours = stores.a[name];
                let theirs = stores.b[name];
                let resolving = MergeView { stage: StageView::Resolving { theirs }, ..here };
                let resolve = MergeRequestView::Resolve { name, ours, theirs };
                assert(p1 == MergeProgressView::Ask(resolving, resolve));
                lemma_unfold(resolving, resolve, s1, resolver);
                let (s2, reply2) = serve_merge(s1, resolver, resolve);
                let p2 = merge_step(resolving, reply2);
                assert(p2 == work_step(resolving, work, reply2));
                assert forall|c: nat, r: ReportView| at_work(resolving, c, r) == at_work(
                    m,
                    c,
                    r,
                ) by {}
                let second = run_merge(p2, s2, resolver);
                assert(whole == after(seq![first], after(seq![resolve], second)));
                match resolver(name, ours, theirs) {
                    DecisionView::Cancel => {
                        assert(whole.trace =~= e.trace + second.trace);
                    },
                    DecisionView::Overwrite => {
                        let path = recovery_path(m.config, name);
                        let backing = MergeView {
                            stage: StageView::BackingUp { theirs },
                            ..resolving
                        };
                        let backup = MergeRequestView::Backup { name, recovery_path: path };
                        assert(p2 == MergeProgressView::Ask(backing, backup));
                        lemma_unfold(backing, backup, s2, resolver);
                        let (s3, reply3) = serve_merge(s2, resolver, backup);
                        let p3 = merge_step(backing, reply3);
                        assert(p3 == work_step(backing, work, reply3));
                        let replacing = MergeView {
                            stage: StageView::Replacing,
                            report: e.report,
                            ..backing
                        };
                        let replace = MergeRequestView::Replace { name, content: theirs };
                        assert(p3 == MergeProgressView::Ask(replacing, replace));
                        lemma_unfold(replacing, replace, s3, resolver);
                        let (s4, reply4) = serve_merge(s3, resolver, replace);
                        let p4 = merge_step(replacing, reply4);
                        assert(p4 == work_step(replacing, work, reply4));
                        assert forall|c: nat, r: ReportView| at_work(replacing, c, r) == at_work(
                            m,
                            c,
                            r,
                        ) by {}
                        assert(s4 == e.stores);
                        let last = run_merge(p4, s4, resolver);
                        assert(whole == after(
                            seq![first],
                            after(seq![resolve], after(seq![backup], after(seq![replace], last))),
                        ));
                        assert(whole.trace =~= e.trace + last.trace);
                    },
                    DecisionView::RenameIncomingTo(new_name) => {
                        let renaming = MergeView {
                            stage: StageView::Renaming { new_name },
                            ..resolving
                        };
                        let copy = MergeRequestView::Copy { from: Side::B, name, new_name };
                        assert(p2 == MergeProgressView::Ask(renaming, copy));
                        lemma_unfold(renaming, copy, s2, resolver);
                        let (s3, reply3) = serve_merge(s2, resolver, copy);
                        let p3 = merge_step(renaming, reply3);
                        assert(p3 == work_step(renaming, work, reply3));
                        assert forall|c: nat, r: ReportView| at_work(renaming, c, r) == at_work(
                            m,
                            c,
                            r,
                        ) by {}
                        assert(s3 == e.stores);
                        let last = run_merge(p3, s3, resolver);
                        assert(whole == after(
                            seq![first],
                            after(seq![resolve], after(seq![copy], last)),
                        ));
                        assert(whole.trace =~= e.trace + last.trace);
                    },
                }
            }
        },
    }
}

/// A merge at its work ends as the work says, piece by piece.
pub proof fn lemma_work_is_process(
    m: MergeView,
    i: nat,
    report: ReportView,
    stores: Stores,
    resolver: Resolver,
)
    ensures
        run_merge(at_work(m, i, report), stores, resolver) == process(
            m.config,
            m.queue,
            i,
            report,
            stores,
            resolver,
        ),
    decreases m.queue.len() - i,
{
    if i < m.queue.len() {
        lemma_item(m, i, report, stores, resolver);
        let e = effect_of(m.config, m.queue[i as int], stores, resolver, report);
        if e.fatal is None {
            lemma_work_is_process(m, i + 1, e.report, e.stores, resolver);
        }
    } else {
        lemma_done(FinishedView { report, error: None }, stores, resolver);
    }
}

/// The work of a merge of the directories `stores`.
pub open spec fn work_of(stores: Stores) -> Seq<WorkView> {
    queue_of(plan_of(file_names(stores.listing_a), file_names(stores.listing_b)))
}

/// The two requests with which every merge starts.
pub open spec fn listing_requests() -> Seq<MergeRequestView> {
    seq![MergeRequestView::List { side: Side::A }, MergeRequestView::List { side: Side::B }]
}

/// A merge lists `A`, then `B`, and then does the work of the plan for the
/// two listings, piece by piece.
pub proof fn lemma_merge_is_process(config: ConfigView, stores: Stores, resolver: Resolver)
    ensures
        run_merge(merge_begin(config), stores, resolver) == after(
            listing_requests(),
            process(config, work_of(stores), 0, empty_report(), stores, resolver),
        ),
{
    let start = MergeView {
        config,
        stage: StageView::ListingA,
        files_a: Seq::empty(),
        queue: Seq::empty(),
        cursor: 0,
        report: empty_report(),
    };
    let list_a = MergeRequestView::List { side: Side::A };
    let list_b = MergeRequestView::List { side: Side::B };
    lemma_unfold(start, list_a, stores, resolver);
    let second = MergeView {
        stage: StageView::ListingB,
        files_a: file_names(stores.listing_a),
        ..start
    };
    assert(merge_step(start, MergeReplyView::Listing(Ok(stores.listing_a)))
        == MergeProgressView::Ask(second, list_b));
    lemma_unfold(second, list_b, stores, resolver);
    let working = MergeView { queue: work_of(stores), ..second };
    assert(merge_step(second, MergeReplyView::Listing(Ok(stores.listing_b))) == at_work(
        working,
        0,
        empty_report(),
    ));
    lemma_work_is_process(working, 0, empty_report(), stores, resolver);
    let rest = process(config, work_of(stores), 0, empty_report(), stores, resolver);
    let whole = run_merge(merge_begin(config), stores, resolver);
    assert(whole == after(seq![list_a], after(seq![list_b], rest)));
    assert(whole.trace =~= listing_requests() + rest.trace);
}

/// Whether the listings and the files of the directories agree: the files
/// of a directory are those that its listing names, each once.
pub open spec fn consistent(stores: Stores) -> bool {
    &&& file_names(stores.listing_a).no_duplicates()
    &&& file_names(stores.listing_b).no_duplicates()
    &&& forall|name: Seq<char>| #[trigger]
        stores.a.contains_key(name) <==> file_names(stores.listing_a).contains(name)
    &&& forall|name: Seq<char>| #[trigger]
        stores.b.contains_key(name) <==> file_names(stores.listing_b).contains(name)
}

/// Whether a request asks for the decision on the file `name`.
pub open spec fn is_resolve_of(request: MergeRequestView, name: Seq<char>) -> bool {
    request matches MergeRequestView::Resolve { name: asked, .. } && asked == name
}

/// The requests of a trace that ask for the decision on the file `name`, in
/// order.
pub open spec fn resolutions_of(trace: Seq<MergeRequestView>, name: Seq<char>) -> Seq<
    MergeRequestView,
>
    decreases trace.len(),
{
    if trace.len() == 0 {
        Seq::empty()
    } else {
        let before = resolutions_of(trace.drop_last(), name);
        if is_resolve_of(trace.last(), name) {
            before.push(trace.last())
        } else {
            before
        }
    }
}

/// The decisions asked for in two traces, one after the other.
pub proof fn lemma_resolutions_add(
    a: Seq<MergeRequestView>,
    b: Seq<MergeRequestView>,
    name: Seq<char>,
)
    ensures
        resolutions_of(a + b, name) == resolutions_of(a, name) + resolutions_of(b, name),
    decreases b.len(),
{
    if b.len() == 0 {
        assert(a + b =~= a);
        assert(resolutions_of(a, name) + resolutions_of(b, name) =~= resolutions_of(a, name));
    } else {
        assert((a + b).drop_last() =~= a + b.drop_last());
        lemma_resolutions_add(a, b.drop_last(), name);
        let front = resolutions_of(a, name) + resolutions_of(b.drop_last(), name);
        if is_resolve_of(b.last(), name) {
            assert(front.push(b.last()) =~= resolutions_of(a, name) + resolutions_of(
                b.drop_last(),
                name,
            ).push(b.last()));
        }
    }
}

/// A path below the recovery directory belongs to one file name only.
pub proof fn lemma_recovery_path_injective(config: ConfigView, x: Seq<char>, y: Seq<char>)
    requires
        recovery_path(config, x) == recovery_path(config, y),
    ensures
        x == y,
{
    let prefix = config.root + "/deleted/"@ + config.directory + "/"@;
    assert((prefix + x).skip(prefix.len() as int) =~= x);
    assert((prefix + y).skip(prefix.len() as int) =~= y);
}

/// What a piece of work leaves alone. Work other than the comparison of the
/// file `name` asks for no decision on it, leaves its bytes on both sides
/// and the copy put aside for it as they are, and takes no backup off the
/// report.
proof fn lemma_effect_frame(
    config: ConfigView,
    work: WorkView,
    stores: Stores,
    resolver: Resolver,
    report: ReportView,
    name: Seq<char>,
)
    requires
        work != WorkView::Compare(name),
    ensures
        ({
            let e = effect_of(config, work, stores, resolver, report);
            let path = recovery_path(config, name);
            &&& resolutions_of(e.trace, name).len() == 0
            &&& stores.a.contains_key(name) ==> e.stores.a.contains_key(name) && e.stores.a[name]
                == stores.a[name]
            &&& stores.b.contains_key(name) ==> e.stores.b.contains_key(name) && e.stores.b[name]
                == stores.b[name]
            &&& stores.recovery.contains_key(path) ==> e.stores.recovery.contains_key(path)
                && e.stores.recovery[path] == stores.recovery[path]
            &&& forall|b: BackupView| #[trigger]
                report.backups.contains(b) ==> e.report.backups.contains(b)
        }),
{
    let e = effect_of(config, work, stores, resolver, report);
    reveal_with_fuel(resolutions_of, 6);
    assert forall|b: BackupView| #[trigger] report.backups.contains(b) implies e.report.backups.contains(
        b,
    ) by {
        let i = choose|i: int| 0 <= i < report.backups.len() && report.backups[i] == b;
        if e.report.backups.len() > report.backups.len() {
            assert(e.report.backups[i] == b);
        }
    }
    match work {
        WorkView::Compare(other) => {
            if stores.a.contains_key(other) && stores.b.contains_key(other) && stores.a[other]
                != stores.b[other] {
                if recovery_path(config, other) == recovery_path(config, name) {
                    lemma_recovery_path_injective(config, other, name);
                }
                assert(e.trace.len() >= 2);
                assert(!is_resolve_of(e.trace[1], name));
            }
        },
        _ => {},
    }
}

/// The work from `i` on holds no comparison of the file `name`, so no
/// decision on it is asked for, and its bytes on both sides and the copy put
/// aside for it stay as they are.
pub proof fn lemma_untouched(
    config: ConfigView,
    queue: Seq<WorkView>,
    i: nat,
    report: ReportView,
    stores: Stores,
    resolver: Resolver,
    name: Seq<char>,
)
    requires
        forall|j: int| i <= j < queue.len() ==> queue[j] != WorkView::Compare(name),
    ensures
        ({
            let end = process(config, queue, i, report, stores, resolver);
            let path = recovery_path(config, name);
            &&& resolutions_of(end.trace, name).len() == 0
            &&& stores.a.contains_key(name) ==> end.stores.a.contains_key(name)
                && end.stores.a[name] == stores.a[name]
            &&& stores.b.contains_key(name) ==> end.stores.b.contains_key(name)
                && end.stores.b[name] == stores.b[name]
            &&& stores.recovery.contains_key(path) ==> end.stores.recovery.contains_key(path)
                && end.stores.recovery[path] == stores.recovery[path]
            &&& forall|b: BackupView| #[trigger]
                report.backups.contains(b) ==> end.finished.report.backups.contains(b)
        }),
    decreases queue.len() - i,
{
    if i < queue.len() {
        let e = effect_of(config, queue[i as int], stores, resolver, report);
        lemma_effect_frame(config, queue[i as int], stores, resolver, report, name);
        if e.fatal is None {
            let rest = process(config, queue, i + 1, e.report, e.stores, resolver);
            lemma_untouched(config, queue, i + 1, e.report, e.stores, resolver, name);
            lemma_resolutions_add(e.trace, rest.trace, name);
        }
    }
}

/// A file that both directories hold with the same bytes stays so to the
/// end of the work, and no decision on it is asked for.
pub proof fn lemma_identical_kept(
    config: ConfigView,
    queue: Seq<WorkView>,
    i: nat,
    report: ReportView,
    stores: Stores,
    resolver: Resolver,
    name: Seq<char>,
)
    requires
        stores.a.contains_key(name),
        stores.b.contains_key(name),
        stores.a[name] == stores.b[name],
    ensures
        ({
            let end = process(config, queue, i, report, stores, resolver);
            &&& resolutions_of(end.trace, name).len() == 0
            &&& end.stores.a.contains_key(name) && end.stores.a[name] == stores.a[name]
            &&& end.stores.b.contains_key(name) && end.stores.b[name] == stores.b[name]
        }),
    decreases queue.len() - i,
{
    if i < queue.len() {
        let e = effect_of(config, queue[i as int], stores, resolver, report);
        if queue[i as int] == WorkView::Compare(name) {
            reveal_with_fuel(resolutions_of, 3);
        } else {
            lemma_effect_frame(config, queue[i as int], stores, resolver, report, name);
        }
        if e.fatal is None {
            let rest = process(config, queue, i + 1, e.report, e.stores, resolver);
            lemma_identical_kept(config, queue, i + 1, e.report, e.stores, resolver, name);
            lemma_resolutions_add(e.trace, rest.trace, name);
        }
    }
}

/// The files `names[i..]` of `source` added to `target`.
pub open spec fn poured(
    target: Map<Seq<char>, Seq<u8>>,
    source: Map<Seq<char>, Seq<u8>>,
    names: Seq<Seq<char>>,
    i: nat,
) -> Map<Seq<char>, Seq<u8>>
    decreases names.len() - i,
{
    if i >= names.len() {
        target
    } else {
        poured(target.insert(names[i as int], source[names[i as int]]), source, names, i + 1)
    }
}

/// The requests that copy the files `names[i..]` from one directory.
pub open spec fn copies(from: Side, names: Seq<Seq<char>>, i: nat) -> Seq<MergeRequestView>
    decreases names.len() - i,
{
    if i >= names.len() {
        Seq::empty()
    } else {
        seq![MergeRequestView::Copy { from, name: names[i as int], new_name: names[i as int] }]
            + copies(from, names, i + 1)
    }
}

/// The report after the files `names[i..]` were copied into `A`.
pub open spec fn reported(report: ReportView, names: Seq<Seq<char>>, i: nat) -> ReportView
    decreases names.len() - i,
{
    if i >= names.len() {
        report
    } else {
        reported(with_copied(report, names[i as int]), names, i + 1)
    }
}

/// What pouring gives: all of the target, and the poured files with the
/// bytes of the source.
pub proof fn lemma_poured(
    target: Map<Seq<char>, Seq<u8>>,
    source: Map<Seq<char>, Seq<u8>>,
    names: Seq<Seq<char>>,
    i: nat,
)
    requires
        names.no_duplicates(),
        i <= names.len(),
        forall|j: int| i <= j < names.len() ==> !target.contains_key(#[trigger] names[j]),
    ensures
        forall|x: Seq<char>| #[trigger]
            target.contains_key(x) ==> poured(target, source, names, i).contains_key(x) && poured(
                target,
                source,
                names,
                i,
            )[x] == target[x],
        forall|j: int|
            i <= j < names.len() ==> poured(target, source, names, i).contains_key(
                #[trigger] names[j],
            ) && poured(target, source, names, i)[names[j]] == source[names[j]],
        forall|x: Seq<char>| #[trigger]
            poured(target, source, names, i).contains_key(x) ==> target.contains_key(x)
                || names.contains(x),
    decreases names.len() - i,
{
    if i < names.len() {
        let first = names[i as int];
        let next = target.insert(first, source[first]);
        assert forall|j: int| i + 1 <= j < names.len() implies !next.contains_key(
            #[trigger] names[j],
        ) by {
            assert(names[j] != names[i as int]);
        }
        lemma_poured(next, source, names, i + 1);
        let all = poured(target, source, names, i);
        assert(all == poured(next, source, names, i + 1));
        assert(next.contains_key(first));
        assert forall|x: Seq<char>| #[trigger] target.contains_key(x) implies all.contains_key(x)
            && all[x] == target[x] by {
            assert(next.contains_key(x));
            assert(x != first);
        }
        assert forall|j: int| i <= j < names.len() implies all.contains_key(#[trigger] names[j])
            && all[names[j]] == source[names[j]] by {
            if j == i {
                assert(all[first] == next[first]);
            }
        }
        assert forall|x: Seq<char>| #[trigger] all.contains_key(x) implies target.contains_key(x)
            || names.contains(x) by {
            if !names.contains(x) {
                assert(next.contains_key(x));
                assert(x != names[i as int]);
            }
        }
    }
}

/// No copy asks for a decision.
pub proof fn lemma_copies_resolve_nothing(from: Side, names: Seq<Seq<char>>, i: nat, name: Seq<char>)
    ensures
        resolutions_of(copies(from, names, i), name).len() == 0,
    decreases names.len() - i,
{
    if i < names.len() {
        let first = seq![
            MergeRequestView::Copy { from, name: names[i as int], new_name: names[i as int] },
        ];
        lemma_copies_resolve_nothing(from, names, i + 1, name);
        lemma_resolutions_add(first, copies(from, names, i + 1), name);
        reveal_with_fuel(resolutions_of, 2);
    }
}

/// The copies into `A`, one after the other: each succeeds where `B` has the
/// file and `A` lacks it.
pub proof fn lemma_copy_in_phase(
    config: ConfigView,
    queue: Seq<WorkView>,
    base: nat,
    names: Seq<Seq<char>>,
    i: nat,
    report: ReportView,
    stores: Stores,
    resolver: Resolver,
)
    requires
        base + names.len() <= queue.len(),
        forall|j: int| 0 <= j < names.len() ==> queue[base + j] == WorkView::CopyIn(names[j]),
        names.no_duplicates(),
        i <= names.len(),
        forall|j: int|
            i <= j < names.len() ==> stores.b.contains_key(#[trigger] names[j])
                && !stores.a.contains_key(names[j]),
    ensures
        process(config, queue, base + i, report, stores, resolver) == after(
            copies(Side::B, names, i),
            process(
                config,
                queue,
                base + names.len(),
                reported(report, names, i),
                Stores { a: poured(stores.a, stores.b, names, i), ..stores },
                resolver,
            ),
        ),
    decreases names.len() - i,
{
    let whole = process(config, queue, base + i, report, stores, resolver);
    if i < names.len() {
        let name = names[i as int];
        assert(queue[(base + i) as int] == WorkView::CopyIn(name));
        let e = effect_of(config, queue[(base + i) as int], stores, resolver, report);
        assert(e.fatal is None);
        assert forall|j: int| i + 1 <= j < names.len() implies e.stores.b.contains_key(
            #[trigger] names[j],
        ) && !e.stores.a.contains_key(names[j]) by {
            assert(names[j] != names[i as int]);
        }
        lemma_copy_in_phase(config, queue, base, names, i + 1, e.report, e.stores, resolver);
        let last = process(
            config,
            queue,
            base + names.len(),
            reported(report, names, i),
            Stores { a: poured(stores.a, stores.b, names, i), ..stores },
            resolver,
        );
        assert(whole == after(e.trace, after(copies(Side::B, names, i + 1), last)));
        assert(whole.trace =~= copies(Side::B, names, i) + last.trace);
    } else {
        let last = process(config, queue, base + names.len(), report, stores, resolver);
        assert(whole.trace =~= copies(Side::B, names, i) + last.trace);
    }
}

/// The copies into `B`, one after the other: each succeeds where `A` has the
/// file and `B` lacks it.
pub proof fn lemma_copy_out_phase(
    config: ConfigView,
    queue: Seq<WorkView>,
    base: nat,
    names: Seq<Seq<char>>,
    i: nat,
    report: ReportView,
    stores: Stores,
    resolver: Resolver,
)
    requires
        base + names.len() <= queue.len(),
        forall|j: int| 0 <= j < names.len() ==> queue[base + j] == WorkView::CopyOut(names[j]),
        names.no_duplicates(),
        i <= names.len(),
        forall|j: int|
            i <= j < names.len() ==> stores.a.contains_key(#[trigger] names[j])
                && !stores.b.contains_key(names[j]),
    ensures
        process(config, queue, base + i, report, stores, resolver) == after(
            copies(Side::A, names, i),
            process(
                config,
                queue,
                base + names.len(),
                report,
                Stores { b: poured(stores.b, stores.a, names, i), ..stores },
                resolver,
            ),
        ),
    decreases names.len() - i,
{
    let whole = process(config, queue, base + i, report, stores, resolver);
    if i < names.len() {
        let name = names[i as int];
        assert(queue[(base + i) as int] == WorkView::CopyOut(name));
        let e = effect_of(config, queue[(base + i) as int], stores, resolver, report);
        assert(e.fatal is None);
        assert forall|j: int| i + 1 <= j < names.len() implies e.stores.a.contains_key(
            #[trigger] names[j],
        ) && !e.stores.b.contains_key(names[j]) by {
            assert(names[j] != names[i as int]);
        }
        lemma_copy_out_phase(config, queue, base, names, i + 1, e.report, e.stores, resolver);
        let last = process(
            config,
            queue,
            base + names.len(),
            report,
            Stores { b: poured(stores.b, stores.a, names, i), ..stores },
            resolver,
        );
        assert(whole == after(e.trace, after(copies(Side::A, names, i + 1), last)));
        assert(whole.trace =~= copies(Side::A, names, i) + last.trace);
    } else {
        let last = process(config, queue, base + names.len(), report, stores, resolver);
        assert(whole.trace =~= copies(Side::A, names, i) + last.trace);
    }
}

/// What the plan of consistent directories holds: each file once, in the
/// group that says where it is.
pub proof fn lemma_plan_facts(stores: Stores)
    requires
        consistent(stores),
    ensures
        ({
            let plan = plan_of(file_names(stores.listing_a), file_names(stores.listing_b));
            &&& plan.only_in_a.no_duplicates()
            &&& plan.only_in_b.no_duplicates()
            &&& plan.in_both.no_duplicates()
            &&& forall|x: Seq<char>| #[trigger]
                plan.only_in_a.contains(x) <==> stores.a.contains_key(x)
                    && !stores.b.contains_key(x)
            &&& forall|x: Seq<char>| #[trigger]
                plan.only_in_b.contains(x) <==> stores.b.contains_key(x)
                    && !stores.a.contains_key(x)
            &&& forall|x: Seq<char>| #[trigger]
                plan.in_both.contains(x) <==> stores.a.contains_key(x) && stores.b.contains_key(x)
        }),
{
    let fa = file_names(stores.listing_a);
    let fb = file_names(stores.listing_b);
    let plan = plan_of(fa, fb);
    lemma_filter_members(fa, is_not_among(fb));
    lemma_filter_members(fb, is_not_among(fa));
    lemma_filter_members(fb, is_among(fa));
    assert forall|x: Seq<char>| #[trigger]
        plan.only_in_a.contains(x) <==> stores.a.contains_key(x) && !stores.b.contains_key(x) by {
        assert(stores.a.contains_key(x) <==> fa.contains(x));
        assert(stores.b.contains_key(x) <==> fb.contains(x));
    }
    assert forall|x: Seq<char>| #[trigger]
        plan.only_in_b.contains(x) <==> stores.b.contains_key(x) && !stores.a.contains_key(x) by {
        assert(stores.a.contains_key(x) <==> fa.contains(x));
        assert(stores.b.contains_key(x) <==> fb.contains(x));
    }
    assert forall|x: Seq<char>| #[trigger]
        plan.in_both.contains(x) <==> stores.a.contains_key(x) && stores.b.contains_key(x) by {
        assert(stores.a.contains_key(x) <==> fa.contains(x));
        assert(stores.b.contains_key(x) <==> fb.contains(x));
    }
}

/// Where each group of the plan stands in the work.
pub proof fn lemma_queue_layout(plan: PlanView)
    ensures
        ({
            let queue = queue_of(plan);
            let n_in = plan.only_in_b.len();
            let n_out = plan.only_in_a.len();
            &&& queue.len() == n_in + n_out + plan.in_both.len()
            &&& forall|j: int|
                0 <= j < n_in ==> #[trigger] queue[j] == WorkView::CopyIn(plan.only_in_b[j])
            &&& forall|j: int|
                0 <= j < n_out ==> #[trigger] queue[n_in + j] == WorkView::CopyOut(
                    plan.only_in_a[j],
                )
            &&& forall|j: int|
                0 <= j < plan.in_both.len() ==> #[trigger] queue[n_in + n_out + j]
                    == WorkView::Compare(plan.in_both[j])
        }),
{
}

/// The report after copies into `A`: the copied names behind those that were
/// there, and nothing else changed.
pub proof fn lemma_reported(report: ReportView, names: Seq<Seq<char>>, i: nat)
    requires
        i <= names.len(),
    ensures
        reported(report, names, i).copied_to_a == report.copied_to_a + names.skip(i as int),
        reported(report, names, i).backups == report.backups,
        reported(report, names, i).failed == report.failed,
    decreases names.len() - i,
{
    if i < names.len() {
        lemma_reported(with_copied(report, names[i as int]), names, i + 1);
        assert(report.copied_to_a.push(names[i as int]) + names.skip(i as int + 1)
            =~= report.copied_to_a + names.skip(i as int));
    } else {
        assert(report.copied_to_a + names.skip(i as int) =~= report.copied_to_a);
    }
}

/// The directories after the copies of a merge: each side has been given the
/// files that only the other side had.
pub open spec fn after_copies(stores: Stores) -> Stores {
    let plan = plan_of(file_names(stores.listing_a), file_names(stores.listing_b));
    let a = poured(stores.a, stores.b, plan.only_in_b, 0);
    Stores { a, b: poured(stores.b, a, plan.only_in_a, 0), ..stores }
}

/// The position in the work at which the comparisons begin.
pub open spec fn copies_end(stores: Stores) -> nat {
    let plan = plan_of(file_names(stores.listing_a), file_names(stores.listing_b));
    plan.only_in_b.len() + plan.only_in_a.len()
}

/// The copies of a merge of consistent directories all succeed. They leave
/// every file that was there as it was and give each side the files of the
/// other.
pub proof fn lemma_copy_phases(config: ConfigView, stores: Stores, resolver: Resolver)
    requires
        consistent(stores),
    ensures
        ({
            let plan = plan_of(file_names(stores.listing_a), file_names(stores.listing_b));
            let then = after_copies(stores);
            &&& process(config, work_of(stores), 0, empty_report(), stores, resolver) == after(
                copies(Side::B, plan.only_in_b, 0),
                after(
                    copies(Side::A, plan.only_in_a, 0),
                    process(
                        config,
                        work_of(stores),
                        copies_end(stores),
                        reported(empty_report(), plan.only_in_b, 0),
                        then,
                        resolver,
                    ),
                ),
            )
            &&& then.recovery == stores.recovery
            &&& forall|x: Seq<char>| #[trigger]
                stores.a.contains_key(x) ==> then.a.contains_key(x) && then.a[x] == stores.a[x]
                    && then.b.contains_key(x) && (!stores.b.contains_key(x) ==> then.b[x]
                    == stores.a[x])
            &&& forall|x: Seq<char>| #[trigger]
                stores.b.contains_key(x) ==> then.b.contains_key(x) && then.b[x] == stores.b[x]
                    && then.a.contains_key(x) && (!stores.a.contains_key(x) ==> then.a[x]
                    == stores.b[x])
            &&& forall|x: Seq<char>| #[trigger]
                then.a.contains_key(x) ==> stores.a.contains_key(x) || stores.b.contains_key(x)
            &&& forall|x: Seq<char>| #[trigger]
                then.b.contains_key(x) ==> stores.a.contains_key(x) || stores.b.contains_key(x)
        }),
{
    let plan = plan_of(file_names(stores.listing_a), file_names(stores.listing_b));
    let queue = work_of(stores);
    let ins = plan.only_in_b;
    let outs = plan.only_in_a;
    lemma_plan_facts(stores);
    lemma_queue_layout(plan);
    assert forall|j: int| 0 <= j < ins.len() implies stores.b.contains_key(#[trigger] ins[j])
        && !stores.a.contains_key(ins[j]) by {
        assert(ins.contains(ins[j]));
    }
    lemma_copy_in_phase(config, queue, 0, ins, 0, empty_report(), stores, resolver);
    lemma_poured(stores.a, stores.b, ins, 0);
    let a1 = poured(stores.a, stores.b, ins, 0);
    let mid = Stores { a: a1, ..stores };
    assert forall|j: int| 0 <= j < outs.len() implies mid.a.contains_key(#[trigger] outs[j])
        && !mid.b.contains_key(outs[j]) by {
        assert(outs.contains(outs[j]));
        assert(stores.a.contains_key(outs[j]));
    }
    lemma_copy_out_phase(
        config,
        queue,
        ins.len(),
        outs,
        0,
        reported(empty_report(), ins, 0),
        mid,
        resolver,
    );
    lemma_poured(stores.b, a1, outs, 0);
    let then = after_copies(stores);
    assert(then == Stores { b: poured(mid.b, mid.a, outs, 0), ..mid });
    assert forall|x: Seq<char>| #[trigger] stores.a.contains_key(x) implies then.a.contains_key(x)
        && then.a[x] == stores.a[x] && then.b.contains_key(x) && (!stores.b.contains_key(x)
        ==> then.b[x] == stores.a[x]) by {
        if !stores.b.contains_key(x) {
            assert(outs.contains(x));
            let j = choose|j: int| 0 <= j < outs.len() && outs[j] == x;
            assert(then.b.contains_key(outs[j]));
        }
    }
    assert forall|x: Seq<char>| #[trigger] stores.b.contains_key(x) implies then.b.contains_key(x)
        && then.b[x] == stores.b[x] && then.a.contains_key(x) && (!stores.a.contains_key(x)
        ==> then.a[x] == stores.b[x]) by {
        if !stores.a.contains_key(x) {
            assert(ins.contains(x));
            let j = choose|j: int| 0 <= j < ins.len() && ins[j] == x;
            assert(then.a.contains_key(ins[j]));
        }
    }
    assert forall|x: Seq<char>| #[trigger] then.a.contains_key(x) implies stores.a.contains_key(x)
        || stores.b.contains_key(x) by {
        if !stores.a.contains_key(x) {
            assert(ins.contains(x));
        }
    }
    assert forall|x: Seq<char>| #[trigger] then.b.contains_key(x) implies stores.a.contains_key(x)
        || stores.b.contains_key(x) by {
        if !stores.b.contains_key(x) {
            assert(outs.contains(x));
        }
    }
}

/// Comparisons never stop a merge.
pub proof fn lemma_comparisons_complete(
    config: ConfigView,
    queue: Seq<WorkView>,
    i: nat,
    report: ReportView,
    stores: Stores,
    resolver: Resolver,
)
    requires
        forall|j: int| i <= j < queue.len() ==> #[trigger] queue[j] is Compare,
    ensures
        process(config, queue, i, report, stores, resolver).finished.error is None,
    decreases queue.len() - i,
{
    if i < queue.len() {
        assert(queue[i as int] is Compare);
        let e = effect_of(config, queue[i as int], stores, resolver, report);
        lemma_comparisons_complete(config, queue, i + 1, e.report, e.stores, resolver);
    }
}

/// The request that asks for the decision on a file with the given bytes.
pub open spec fn resolve_request(name: Seq<char>, ours: Seq<u8>, theirs: Seq<u8>) -> MergeRequestView {
    MergeRequestView::Resolve { name, ours, theirs }
}

/// The backup that the report holds for an overwritten file.
pub open spec fn backup_of(config: ConfigView, name: Seq<char>) -> BackupView {
    BackupView {
        recovery_path: recovery_path(config, name),
        original_path: original_path(config, name),
    }
}

/// The comparisons from `i` on reach the comparison of a file that differs,
/// at position `at`: the decision on it is asked for once, with the bytes of
/// both sides, and an overwrite is applied and stays applied.
pub proof fn lemma_conflict_reached(
    config: ConfigView,
    queue: Seq<WorkView>,
    i: nat,
    at: nat,
    report: ReportView,
    stores: Stores,
    resolver: Resolver,
    name: Seq<char>,
)
    requires
        i <= at < queue.len(),
        queue[at as int] == WorkView::Compare(name),
        forall|j: int|
            i <= j < queue.len() && j != at ==> #[trigger] queue[j] != WorkView::Compare(name),
        forall|j: int| i <= j < at ==> #[trigger] queue[j] is Compare,
        stores.a.contains_key(name),
        stores.b.contains_key(name),
        stores.a[name] != stores.b[name],
    ensures
        ({
            let end = process(config, queue, i, report, stores, resolver);
            let path = recovery_path(config, name);
            &&& resolutions_of(end.trace, name) == seq![
                resolve_request(name, stores.a[name], stores.b[name]),
            ]
            &&& resolver(name, stores.a[name], stores.b[name]) is Overwrite ==> {
                &&& end.stores.recovery.contains_key(path)
                &&& end.stores.recovery[path] == stores.a[name]
                &&& end.stores.a.contains_key(name)
                &&& end.stores.a[name] == stores.b[name]
                &&& end.finished.report.backups.contains(backup_of(config, name))
            }
            &&& !(resolver(name, stores.a[name], stores.b[name]) is Overwrite) ==> {
                &&& end.stores.a.contains_key(name)
                &&& end.stores.a[name] == stores.a[name]
            }
            &&& end.stores.b.contains_key(name)
            &&& end.stores.b[name] == stores.b[name]
        }),
    decreases at - i,
{
    let work = queue[i as int];
    let e = effect_of(config, work, stores, resolver, report);
    let rest = process(config, queue, i + 1, e.report, e.stores, resolver);
    let end = process(config, queue, i, report, stores, resolver);
    if i < at {
        assert(queue[i as int] is Compare);
        assert(queue[i as int] != WorkView::Compare(name));
        lemma_effect_frame(config, work, stores, resolver, report, name);
        assert(e.fatal is None);
        lemma_conflict_reached(config, queue, i + 1, at, e.report, e.stores, resolver, name);
        lemma_resolutions_add(e.trace, rest.trace, name);
        assert(resolutions_of(e.trace, name) =~= Seq::<MergeRequestView>::empty());
        assert(resolutions_of(end.trace, name) =~= resolutions_of(rest.trace, name));
    } else {
        assert(e == conflict_effect(config, name, stores, resolver, report));
        assert(e.fatal is None);
        lemma_untouched(config, queue, i + 1, e.report, e.stores, resolver, name);
        lemma_resolutions_add(e.trace, rest.trace, name);
        reveal_with_fuel(resolutions_of, 6);
        let asked = resolve_request(name, stores.a[name], stores.b[name]);
        assert(e.trace[1] == asked);
        assert(resolutions_of(e.trace, name) =~= seq![asked]);
        assert(resolutions_of(rest.trace, name) =~= Seq::<MergeRequestView>::empty());
        assert(resolutions_of(end.trace, name) =~= seq![asked]);
        if resolver(name, stores.a[name], stores.b[name]) is Overwrite {
            let kept = backup_of(config, name);
            assert(e.report.backups[e.report.backups.len() - 1] == kept);
            assert(e.report.backups.contains(kept));
        }
    }
}

/// The work never takes a name off the report of what was copied into `A`.
pub proof fn lemma_arrivals_stay(
    config: ConfigView,
    queue: Seq<WorkView>,
    i: nat,
    report: ReportView,
    stores: Stores,
    resolver: Resolver,
)
    ensures
        forall|x: Seq<char>| #[trigger]
            report.copied_to_a.contains(x) ==> process(
                config,
                queue,
                i,
                report,
                stores,
                resolver,
            ).finished.report.copied_to_a.contains(x),
    decreases queue.len() - i,
{
    if i < queue.len() {
        let e = effect_of(config, queue[i as int], stores, resolver, report);
        assert forall|x: Seq<char>| #[trigger]
            report.copied_to_a.contains(x) implies e.report.copied_to_a.contains(x) by {
            let k = choose|k: int| 0 <= k < report.copied_to_a.len() && report.copied_to_a[k] == x;
            if e.report.copied_to_a.len() > report.copied_to_a.len() {
                assert(e.report.copied_to_a[k] == x);
            }
        }
        if e.fatal is None {
            lemma_arrivals_stay(config, queue, i + 1, e.report, e.stores, resolver);
        }
    }
}

/// The listings ask for no decision.
proof fn lemma_listings_resolve_nothing(name: Seq<char>)
    ensures
        resolutions_of(listing_requests(), name).len() == 0,
{
    reveal_with_fuel(resolutions_of, 3);
}

/// After a merge of two directories that have no file name in common, both
/// hold the files of both, each with its bytes; the merge reports no error
/// and reports every file of `B` as copied into `A`.
pub proof fn law_merge_of_disjoint_directories(
    config: ConfigView,
    stores: Stores,
    resolver: Resolver,
)
    requires
        consistent(stores),
        forall|x: Seq<char>| !(stores.a.contains_key(x) && stores.b.contains_key(x)),
    ensures
        ({
            let end = run_merge(merge_begin(config), stores, resolver);
            &&& end.finished.error is None
            &&& end.stores.a == stores.a.union_prefer_right(stores.b)
            &&& end.stores.b == stores.b.union_prefer_right(stores.a)
            &&& end.stores.a.dom() == stores.a.dom().union(stores.b.dom())
            &&& end.stores.b.dom() == stores.a.dom().union(stores.b.dom())
            &&& forall|x: Seq<char>|
                stores.b.contains_key(x) <==> #[trigger] end.finished.report.copied_to_a.contains(
                    x,
                )
        }),
{
    let plan = plan_of(file_names(stores.listing_a), file_names(stores.listing_b));
    let queue = work_of(stores);
    lemma_merge_is_process(config, stores, resolver);
    lemma_copy_phases(config, stores, resolver);
    lemma_plan_facts(stores);
    lemma_queue_layout(plan);
    if plan.in_both.len() > 0 {
        assert(plan.in_both.contains(plan.in_both[0]));
    }
    let then = after_copies(stores);
    let report = reported(empty_report(), plan.only_in_b, 0);
    lemma_reported(empty_report(), plan.only_in_b, 0);
    assert(copies_end(stores) == queue.len());
    let end = run_merge(merge_begin(config), stores, resolver);
    assert(end.stores == then);
    assert(end.finished.report == report);
    assert(then.a =~= stores.a.union_prefer_right(stores.b));
    assert(then.b =~= stores.b.union_prefer_right(stores.a));
    assert(then.a.dom() =~= stores.a.dom().union(stores.b.dom()));
    assert(then.b.dom() =~= stores.a.dom().union(stores.b.dom()));
    assert(report.copied_to_a =~= plan.only_in_b);
}

/// A merge of consistent directories ends without an error.
pub proof fn law_merge_completes(config: ConfigView, stores: Stores, resolver: Resolver)
    requires
        consistent(stores),
    ensures
        run_merge(merge_begin(config), stores, resolver).finished.error is None,
{
    let plan = plan_of(file_names(stores.listing_a), file_names(stores.listing_b));
    lemma_merge_is_process(config, stores, resolver);
    lemma_copy_phases(config, stores, resolver);
    lemma_queue_layout(plan);
    let queue = work_of(stores);
    assert forall|j: int| copies_end(stores) <= j < queue.len() implies #[trigger] queue[j] is Compare by {
        assert(queue[copies_end(stores) + (j - copies_end(stores))] is Compare);
    }
    lemma_comparisons_complete(
        config,
        queue,
        copies_end(stores),
        reported(empty_report(), plan.only_in_b, 0),
        after_copies(stores),
        resolver,
    );
}

/// For a file that both directories hold with the same bytes, a merge asks
/// for no decision and leaves the file as it is on both sides.
pub proof fn law_identical_files_are_left_alone(
    config: ConfigView,
    stores: Stores,
    resolver: Resolver,
    name: Seq<char>,
)
    requires
        stores.a.contains_key(name),
        stores.b.contains_key(name),
        stores.a[name] == stores.b[name],
    ensures
        ({
            let end = run_merge(merge_begin(config), stores, resolver);
            &&& resolutions_of(end.trace, name).len() == 0
            &&& end.stores.a.contains_key(name) && end.stores.a[name] == stores.a[name]
            &&& end.stores.b.contains_key(name) && end.stores.b[name] == stores.b[name]
        }),
{
    lemma_merge_is_process(config, stores, resolver);
    let rest = process(config, work_of(stores), 0, empty_report(), stores, resolver);
    lemma_identical_kept(config, work_of(stores), 0, empty_report(), stores, resolver, name);
    lemma_listings_resolve_nothing(name);
    lemma_resolutions_add(listing_requests(), rest.trace, name);
}

/// For a file that both directories hold with different bytes, a merge asks
/// for the decision exactly once, with the bytes of `A` and the bytes of `B`.
/// Where the decision is to overwrite, the copy put aside at the recovery
/// path holds the bytes that `A` had, `A`'s file holds the bytes of `B`, and
/// the report names the recovery path and the original path. Otherwise `A`'s
/// file is as it was. `B`'s file is as it was in any case.
pub proof fn law_conflict_is_resolved_once(
    config: ConfigView,
    stores: Stores,
    resolver: Resolver,
    name: Seq<char>,
)
    requires
        consistent(stores),
        stores.a.contains_key(name),
        stores.b.contains_key(name),
        stores.a[name] != stores.b[name],
    ensures
        ({
            let end = run_merge(merge_begin(config), stores, resolver);
            let path = recovery_path(config, name);
            &&& resolutions_of(end.trace, name) == seq![
                resolve_request(name, stores.a[name], stores.b[name]),
            ]
            &&& resolver(name, stores.a[name], stores.b[name]) is Overwrite ==> {
                &&& end.stores.recovery.contains_key(path)
                &&& end.stores.recovery[path] == stores.a[name]
                &&& end.stores.a.contains_key(name)
                &&& end.stores.a[name] == stores.b[name]
                &&& end.finished.report.backups.contains(backup_of(config, name))
            }
            &&& !(resolver(name, stores.a[name], stores.b[name]) is Overwrite) ==> {
                &&& end.stores.a.contains_key(name)
                &&& end.stores.a[name] == stores.a[name]
            }
            &&& end.stores.b.contains_key(name)
            &&& end.stores.b[name] == stores.b[name]
        }),
{
    let plan = plan_of(file_names(stores.listing_a), file_names(stores.listing_b));
    let queue = work_of(stores);
    let start = copies_end(stores);
    lemma_merge_is_process(config, stores, resolver);
    lemma_copy_phases(config, stores, resolver);
    lemma_plan_facts(stores);
    lemma_queue_layout(plan);
    let then = after_copies(stores);
    let report = reported(empty_report(), plan.only_in_b, 0);
    assert(plan.in_both.contains(name));
    let k = choose|k: int| 0 <= k < plan.in_both.len() && plan.in_both[k] == name;
    let at = (start + k) as nat;
    assert(queue[start + k] == WorkView::Compare(name));
    assert forall|j: int| start <= j < queue.len() && j != at implies #[trigger] queue[j]
        != WorkView::Compare(name) by {
        assert(queue[start + (j - start)] == WorkView::Compare(plan.in_both[j - start]));
        assert(plan.in_both[j - start] != plan.in_both[k]);
    }
    assert forall|j: int| start <= j < at implies #[trigger] queue[j] is Compare by {
        assert(queue[start + (j - start)] is Compare);
    }
    assert(then.a.contains_key(name) && then.a[name] == stores.a[name]);
    assert(then.b.contains_key(name) && then.b[name] == stores.b[name]);
    lemma_conflict_reached(config, queue, start, at, report, then, resolver, name);
    let compared = process(config, queue, start, report, then, resolver);
    let outs = copies(Side::A, plan.only_in_a, 0);
    let ins = copies(Side::B, plan.only_in_b, 0);
    lemma_copies_resolve_nothing(Side::A, plan.only_in_a, 0, name);
    lemma_copies_resolve_nothing(Side::B, plan.only_in_b, 0, name);
    lemma_listings_resolve_nothing(name);
    lemma_resolutions_add(outs, compared.trace, name);
    lemma_resolutions_add(ins, outs + compared.trace, name);
    lemma_resolutions_add(listing_requests(), ins + (outs + compared.trace), name);
    let end = run_merge(merge_begin(config), stores, resolver);
    assert(end.trace == listing_requests() + (ins + (outs + compared.trace)));
    assert(resolutions_of(end.trace, name) =~= resolutions_of(compared.trace, name));
}

/// A merge of consistent directories gives `A` every file that only `B` had,
/// with `B`'s bytes, gives `B` every file that only `A` had, with `A`'s
/// bytes, and reports each name that arrived in `A`.
pub proof fn law_merge_copies_what_is_missing(
    config: ConfigView,
    stores: Stores,
    resolver: Resolver,
    name: Seq<char>,
)
    requires
        consistent(stores),
        stores.a.contains_key(name) != stores.b.contains_key(name),
    ensures
        ({
            let end = run_merge(merge_begin(config), stores, resolver);
            let bytes = if stores.a.contains_key(name) {
                stores.a[name]
            } else {
                stores.b[name]
            };
            &&& end.stores.a.contains_key(name) && end.stores.a[name] == bytes
            &&& end.stores.b.contains_key(name) && end.stores.b[name] == bytes
            &&& stores.b.contains_key(name) ==> end.finished.report.copied_to_a.contains(name)
            &&& resolutions_of(end.trace, name).len() == 0
        }),
{
    let plan = plan_of(file_names(stores.listing_a), file_names(stores.listing_b));
    let queue = work_of(stores);
    let start = copies_end(stores);
    lemma_merge_is_process(config, stores, resolver);
    lemma_copy_phases(config, stores, resolver);
    lemma_plan_facts(stores);
    lemma_queue_layout(plan);
    let then = after_copies(stores);
    let report = reported(empty_report(), plan.only_in_b, 0);
    lemma_reported(empty_report(), plan.only_in_b, 0);
    assert(report.copied_to_a =~= plan.only_in_b);
    assert(stores.a.contains_key(name) || stores.b.contains_key(name));
    assert(then.a.contains_key(name) && then.b.contains_key(name));
    assert(then.a[name] == then.b[name]);
    lemma_identical_kept(config, queue, start, report, then, resolver, name);
    lemma_arrivals_stay(config, queue, start, report, then, resolver);
    let compared = process(config, queue, start, report, then, resolver);
    let outs = copies(Side::A, plan.only_in_a, 0);
    let ins = copies(Side::B, plan.only_in_b, 0);
    lemma_copies_resolve_nothing(Side::A, plan.only_in_a, 0, name);
    lemma_copies_resolve_nothing(Side::B, plan.only_in_b, 0, name);
    lemma_listings_resolve_nothing(name);
    lemma_resolutions_add(outs, compared.trace, name);
    lemma_resolutions_add(ins, outs + compared.trace, name);
    lemma_resolutions_add(listing_requests(), ins + (outs + compared.trace), name);
    let end = run_merge(merge_begin(config), stores, resolver);
    assert(end.trace == listing_requests() + (ins + (outs + compared.trace)));
    if stores.b.contains_key(name) {
        assert(plan.only_in_b.contains(name));
        assert(report.copied_to_a.contains(name));
    }
}

} // verus!
