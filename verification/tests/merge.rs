use std::collections::BTreeMap;

use davsync::entry::{files_of, Entry, Side};
use davsync::error::{Error, ErrorKind};
use davsync::merge::{
    bytes_equal, copy_bytes, ConflictDecision, Finished, Merge, MergeConfig, MergeProgress,
    MergeReply, MergeRequest, Work,
};
use davsync::plan::{contains_name, SyncPlan};

type Files = BTreeMap<String, Vec<u8>>;

/// Two directories and a recovery place in memory, and the decisions to give.
struct World {
    a: Files,
    b: Files,
    a_dirs: Vec<String>,
    b_dirs: Vec<String>,
    recovery: Files,
    decisions: Vec<ConflictDecision>,
    asked: Vec<(String, Vec<u8>, Vec<u8>)>,
    writes_to_a: usize,
}

fn files(list: &[(&str, &str)]) -> Files {
    list.iter().map(|(n, c)| (n.to_string(), c.as_bytes().to_vec())).collect()
}

fn names(files: &Files) -> Vec<&str> {
    files.keys().map(|k| k.as_str()).collect()
}

impl World {
    fn new(a: &[(&str, &str)], b: &[(&str, &str)]) -> World {
        World {
            a: files(a),
            b: files(b),
            a_dirs: Vec::new(),
            b_dirs: Vec::new(),
            recovery: Files::new(),
            decisions: Vec::new(),
            asked: Vec::new(),
            writes_to_a: 0,
        }
    }

    fn listing(files: &Files, dirs: &[String]) -> Vec<Entry> {
        let mut entries: Vec<Entry> = dirs.iter().map(|d| Entry::directory(d)).collect();
        entries.extend(files.keys().map(|n| Entry::file(n)));
        entries
    }

    fn serve(&mut self, request: MergeRequest) -> MergeReply {
        match request {
            MergeRequest::List { side: Side::A } => {
                MergeReply::Listing(Ok(World::listing(&self.a, &self.a_dirs)))
            }
            MergeRequest::List { side: Side::B } => {
                MergeReply::Listing(Ok(World::listing(&self.b, &self.b_dirs)))
            }
            MergeRequest::Copy { from, name, new_name } => {
                let (source, target) = match from {
                    Side::A => (&self.a, &mut self.b),
                    Side::B => (&self.b, &mut self.a),
                };
                let Some(bytes) = source.get(&name).cloned() else {
                    return MergeReply::Copied(Err(Error::new(ErrorKind::NotFound, &name)));
                };
                if target.contains_key(&new_name) {
                    return MergeReply::Copied(Err(Error::new(ErrorKind::AlreadyExists, &new_name)));
                }
                target.insert(new_name, bytes);
                if from == Side::B {
                    self.writes_to_a += 1;
                }
                MergeReply::Copied(Ok(()))
            }
            MergeRequest::ReadBoth { name } => match (self.a.get(&name), self.b.get(&name)) {
                (Some(ours), Some(theirs)) => {
                    MergeReply::Contents(Ok((ours.clone(), theirs.clone())))
                }
                _ => MergeReply::Contents(Err(Error::new(ErrorKind::NotFound, &name))),
            },
            MergeRequest::Resolve { name, ours, theirs } => {
                self.asked.push((name, ours, theirs));
                MergeReply::Decision(self.decisions.remove(0))
            }
            MergeRequest::Backup { name, recovery_path } => match self.a.get(&name) {
                Some(bytes) => {
                    self.recovery.insert(recovery_path, bytes.clone());
                    MergeReply::BackedUp(Ok(()))
                }
                None => MergeReply::BackedUp(Err(Error::new(ErrorKind::NotFound, &name))),
            },
            MergeRequest::Replace { name, content } => {
                if !self.a.contains_key(&name) {
                    return MergeReply::Replaced(Err(Error::new(ErrorKind::NotFound, &name)));
                }
                self.a.insert(name, content);
                self.writes_to_a += 1;
                MergeReply::Replaced(Ok(()))
            }
        }
    }

    fn merge(&mut self) -> Finished {
        let config = MergeConfig { root: "/data/app".to_string(), directory: "calendars".to_string() };
        let mut progress = Merge::begin(config);
        loop {
            match progress {
                MergeProgress::Done(finished) => return finished,
                MergeProgress::Ask(merge, request) => {
                    let reply = self.serve(request);
                    progress = merge.step(reply);
                }
            }
        }
    }
}

#[test]
fn a_merge_copies_to_each_side_what_only_the_other_has() {
    let mut world = World::new(&[("x.ics", "X")], &[("y.ics", "Y")]);
    let end = world.merge();
    assert!(end.error.is_none());
    assert_eq!(names(&world.a), vec!["x.ics", "y.ics"]);
    assert_eq!(names(&world.b), vec!["x.ics", "y.ics"]);
    assert_eq!(world.a, world.b);
    assert_eq!(end.report.copied_to_a, vec!["y.ics"]);
    assert!(world.asked.is_empty());
}

#[test]
fn a_merge_of_disjoint_directories_gives_both_all_files() {
    let mut world = World::new(&[("a1.ics", "1"), ("a2.ics", "2")], &[("b1.ics", "3")]);
    let end = world.merge();
    assert!(end.error.is_none());
    assert_eq!(names(&world.a), vec!["a1.ics", "a2.ics", "b1.ics"]);
    assert_eq!(names(&world.b), vec!["a1.ics", "a2.ics", "b1.ics"]);
    assert_eq!(world.a["b1.ics"], b"3");
    assert_eq!(world.b["a2.ics"], b"2");
    assert_eq!(end.report.copied_to_a, vec!["b1.ics"]);
    assert!(end.report.backups.is_empty() && end.report.failed.is_empty());
}

#[test]
fn a_merge_leaves_identical_files_alone() {
    let text = "BEGIN:VCALENDAR\n...END:VCALENDAR\n";
    let mut world = World::new(&[("z.ics", text)], &[("z.ics", text)]);
    let end = world.merge();
    assert!(end.error.is_none());
    assert!(world.asked.is_empty());
    assert_eq!(world.writes_to_a, 0);
    assert_eq!(world.a["z.ics"], text.as_bytes());
    assert_eq!(world.b["z.ics"], text.as_bytes());
    assert!(end.report.copied_to_a.is_empty());
    assert!(world.recovery.is_empty());
}

#[test]
fn an_overwrite_puts_the_old_file_aside_and_takes_the_new_bytes() {
    let mut world = World::new(&[("z.ics", "...v1...")], &[("z.ics", "...v2...")]);
    world.decisions.push(ConflictDecision::Overwrite);
    let end = world.merge();
    assert!(end.error.is_none());
    assert_eq!(world.asked, vec![("z.ics".to_string(), b"...v1...".to_vec(), b"...v2...".to_vec())]);
    assert_eq!(world.a["z.ics"], b"...v2...");
    assert_eq!(world.b["z.ics"], b"...v2...");
    assert_eq!(world.recovery["/data/app/deleted/calendars/z.ics"], b"...v1...");
    assert_eq!(end.report.backups.len(), 1);
    assert_eq!(end.report.backups[0].recovery_path, "/data/app/deleted/calendars/z.ics");
    assert_eq!(end.report.backups[0].original_path, "/data/app/calendars/z.ics");
    assert!(end.report.copied_to_a.is_empty());
}

#[test]
fn a_cancel_leaves_both_files_as_they_are() {
    let mut world = World::new(&[("z.ics", "ours")], &[("z.ics", "theirs")]);
    world.decisions.push(ConflictDecision::Cancel);
    let end = world.merge();
    assert!(end.error.is_none());
    assert_eq!(world.asked.len(), 1);
    assert_eq!(world.a["z.ics"], b"ours");
    assert_eq!(world.b["z.ics"], b"theirs");
    assert!(world.recovery.is_empty());
    assert!(end.report.backups.is_empty());
}

#[test]
fn a_rename_copies_the_incoming_file_under_the_new_name() {
    let mut world = World::new(&[("z.ics", "ours")], &[("z.ics", "theirs")]);
    world.decisions.push(ConflictDecision::RenameIncomingTo("z2.ics".to_string()));
    let end = world.merge();
    assert!(end.error.is_none());
    assert_eq!(world.a["z.ics"], b"ours");
    assert_eq!(world.a["z2.ics"], b"theirs");
    assert_eq!(world.b["z.ics"], b"theirs");
    assert_eq!(end.report.copied_to_a, vec!["z2.ics"]);
    assert!(end.report.failed.is_empty());
}

#[test]
fn a_rename_to_a_taken_name_gives_that_file_up_only() {
    let mut world =
        World::new(&[("y.ics", "same"), ("z.ics", "ours")], &[("y.ics", "same"), ("z.ics", "theirs")]);
    world.decisions.push(ConflictDecision::RenameIncomingTo("y.ics".to_string()));
    let end = world.merge();
    assert!(end.error.is_none());
    assert_eq!(world.a["y.ics"], b"same");
    assert_eq!(world.a["z.ics"], b"ours");
    assert_eq!(end.report.failed.len(), 1);
    assert_eq!(end.report.failed[0].name, "z.ics");
    assert_eq!(end.report.failed[0].error.kind, ErrorKind::AlreadyExists);
}

#[test]
fn each_conflict_is_decided_once_and_in_listing_order() {
    let mut world = World::new(
        &[("a.ics", "1"), ("b.ics", "same"), ("c.ics", "3"), ("only_a.ics", "A")],
        &[("a.ics", "one"), ("b.ics", "same"), ("c.ics", "three"), ("only_b.ics", "B")],
    );
    world.decisions.push(ConflictDecision::Overwrite);
    world.decisions.push(ConflictDecision::Cancel);
    let end = world.merge();
    assert!(end.error.is_none());
    assert_eq!(
        world.asked,
        vec![
            ("a.ics".to_string(), b"1".to_vec(), b"one".to_vec()),
            ("c.ics".to_string(), b"3".to_vec(), b"three".to_vec()),
        ]
    );
    assert_eq!(world.a["a.ics"], b"one");
    assert_eq!(world.a["c.ics"], b"3");
    assert_eq!(world.a["only_b.ics"], b"B");
    assert_eq!(world.b["only_a.ics"], b"A");
    assert_eq!(end.report.copied_to_a, vec!["only_b.ics"]);
    assert_eq!(world.recovery.len(), 1);
}

#[test]
fn a_merge_does_not_look_into_directories() {
    let mut world = World::new(&[("x.ics", "X")], &[]);
    world.a_dirs.push("nested".to_string());
    world.b_dirs.push("other".to_string());
    let end = world.merge();
    assert!(end.error.is_none());
    assert_eq!(names(&world.b), vec!["x.ics"]);
    assert_eq!(names(&world.a), vec!["x.ics"]);
}

#[test]
fn a_merge_of_empty_directories_does_nothing() {
    let mut world = World::new(&[], &[]);
    let end = world.merge();
    assert!(end.error.is_none());
    assert!(end.report.copied_to_a.is_empty());
    assert!(world.a.is_empty() && world.b.is_empty());
}

fn start() -> (Merge, MergeRequest) {
    let config = MergeConfig { root: "/r".to_string(), directory: "d".to_string() };
    match Merge::begin(config) {
        MergeProgress::Ask(merge, request) => (merge, request),
        MergeProgress::Done(_) => panic!("the merge ended before it listed anything"),
    }
}

fn ask(progress: MergeProgress) -> (Merge, MergeRequest) {
    match progress {
        MergeProgress::Ask(merge, request) => (merge, request),
        MergeProgress::Done(end) => panic!("the merge ended: {:?}", end.error),
    }
}

fn done(progress: MergeProgress) -> Finished {
    match progress {
        MergeProgress::Done(end) => end,
        MergeProgress::Ask(_, request) => panic!("the merge asked for {request:?}"),
    }
}

fn listed(a: &[&str], b: &[&str]) -> MergeProgress {
    let (merge, request) = start();
    assert!(matches!(request, MergeRequest::List { side: Side::A }));
    let (merge, request) =
        ask(merge.step(MergeReply::Listing(Ok(a.iter().map(|n| Entry::file(n)).collect()))));
    assert!(matches!(request, MergeRequest::List { side: Side::B }));
    merge.step(MergeReply::Listing(Ok(b.iter().map(|n| Entry::file(n)).collect())))
}

#[test]
fn a_name_that_turns_up_on_the_other_side_stops_the_merge() {
    let (merge, request) = ask(listed(&[], &["new.ics"]));
    match request {
        MergeRequest::Copy { from, name, new_name } => {
            assert_eq!((from, name.as_str(), new_name.as_str()), (Side::B, "new.ics", "new.ics"))
        }
        other => panic!("asked for {other:?}"),
    }
    assert_eq!(merge.current_file().map(|n| n.as_str()), Some("new.ics"));
    let end = done(merge.step(MergeReply::Copied(Err(Error::new(ErrorKind::AlreadyExists, "new.ics")))));
    let error = end.error.unwrap();
    assert_eq!(error.kind, ErrorKind::InternalInvariantViolation);
    assert_eq!(error.context, "A file that one directory lacked when listed exists in it: new.ics");
}

#[test]
fn a_copy_that_fails_stops_the_merge_with_its_error() {
    let (merge, _) = ask(listed(&["a.ics", "b.ics"], &[]));
    let (merge, request) = ask(merge.step(MergeReply::Copied(Ok(()))));
    assert!(matches!(request, MergeRequest::Copy { from: Side::A, .. }));
    let end = done(merge.step(MergeReply::Copied(Err(Error::new(ErrorKind::ProviderFailure, "disk full")))));
    let error = end.error.unwrap();
    assert_eq!((error.kind, error.context.as_str()), (ErrorKind::ProviderFailure, "disk full"));
    assert!(end.report.copied_to_a.is_empty());
}

#[test]
fn a_failed_listing_stops_the_merge() {
    let (merge, _) = start();
    let end = done(merge.step(MergeReply::Listing(Err(Error::new(ErrorKind::NotFound, "A")))));
    assert_eq!(end.error.unwrap().kind, ErrorKind::NotFound);
    let (merge, _) = start();
    let (merge, _) = ask(merge.step(MergeReply::Listing(Ok(Vec::new()))));
    let end = done(merge.step(MergeReply::Listing(Err(Error::new(ErrorKind::ProviderFailure, "B")))));
    assert_eq!(end.error.unwrap().kind, ErrorKind::ProviderFailure);
}

#[test]
fn a_file_that_cannot_be_read_is_given_up_and_the_merge_goes_on() {
    let (merge, request) = ask(listed(&["a.ics", "b.ics"], &["a.ics", "b.ics"]));
    assert!(matches!(request, MergeRequest::ReadBoth { .. }));
    let (merge, request) =
        ask(merge.step(MergeReply::Contents(Err(Error::new(ErrorKind::NotFound, "a.ics")))));
    match request {
        MergeRequest::ReadBoth { name } => assert_eq!(name, "b.ics"),
        other => panic!("asked for {other:?}"),
    }
    let end = done(merge.step(MergeReply::Contents(Ok((b"x".to_vec(), b"x".to_vec())))));
    assert!(end.error.is_none());
    assert_eq!(end.report.failed.len(), 1);
    assert_eq!(end.report.failed[0].name, "a.ics");
    assert_eq!(end.report.failed[0].error.kind, ErrorKind::NotFound);
}

#[test]
fn a_failed_backup_or_write_gives_that_file_up_only() {
    let (merge, _) = ask(listed(&["a.ics", "b.ics"], &["a.ics", "b.ics"]));
    let (merge, request) = ask(merge.step(MergeReply::Contents(Ok((b"1".to_vec(), b"2".to_vec())))));
    assert!(matches!(request, MergeRequest::Resolve { .. }));
    let (merge, request) = ask(merge.step(MergeReply::Decision(ConflictDecision::Overwrite)));
    match request {
        MergeRequest::Backup { name, recovery_path } => {
            assert_eq!((name.as_str(), recovery_path.as_str()), ("a.ics", "/r/deleted/d/a.ics"))
        }
        other => panic!("asked for {other:?}"),
    }
    let (merge, request) =
        ask(merge.step(MergeReply::BackedUp(Err(Error::new(ErrorKind::ProviderFailure, "no space")))));
    assert!(matches!(request, MergeRequest::ReadBoth { .. }));
    let (merge, _) = ask(merge.step(MergeReply::Contents(Ok((b"3".to_vec(), b"4".to_vec())))));
    let (merge, _) = ask(merge.step(MergeReply::Decision(ConflictDecision::Overwrite)));
    let (merge, request) = ask(merge.step(MergeReply::BackedUp(Ok(()))));
    match request {
        MergeRequest::Replace { name, content } => {
            assert_eq!((name.as_str(), content.as_slice()), ("b.ics", b"4".as_slice()))
        }
        other => panic!("asked for {other:?}"),
    }
    let end = done(merge.step(MergeReply::Replaced(Err(Error::new(ErrorKind::ProviderFailure, "io")))));
    assert!(end.error.is_none());
    let failed: Vec<&str> = end.report.failed.iter().map(|f| f.name.as_str()).collect();
    assert_eq!(failed, vec!["a.ics", "b.ics"]);
    assert_eq!(end.report.backups.len(), 1);
    assert_eq!(end.report.backups[0].original_path, "/r/d/b.ics");
}

#[test]
fn a_reply_that_does_not_answer_the_request_stops_the_merge() {
    let (merge, _) = start();
    let end = done(merge.step(MergeReply::Copied(Ok(()))));
    assert_eq!(end.error.unwrap().kind, ErrorKind::InternalInvariantViolation);
    let (merge, _) = ask(listed(&["a.ics"], &["a.ics"]));
    let end = done(merge.step(MergeReply::Decision(ConflictDecision::Cancel)));
    assert_eq!(end.error.unwrap().kind, ErrorKind::InternalInvariantViolation);
    let (merge, _) = ask(listed(&["a.ics"], &[]));
    let end = done(merge.step(MergeReply::Contents(Ok((Vec::new(), Vec::new())))));
    assert_eq!(end.error.unwrap().kind, ErrorKind::InternalInvariantViolation);
}

#[test]
fn the_plan_groups_the_files_by_name() {
    let a: Vec<String> = ["b", "a", "c"].iter().map(|s| s.to_string()).collect();
    let b: Vec<String> = ["d", "c", "b"].iter().map(|s| s.to_string()).collect();
    let plan = SyncPlan::new(&a, &b);
    assert_eq!(plan.only_in_a, vec!["a"]);
    assert_eq!(plan.only_in_b, vec!["d"]);
    assert_eq!(plan.in_both, vec!["c", "b"]);
    let queue = plan.queue();
    let work: Vec<String> = queue
        .iter()
        .map(|w| match w {
            Work::CopyIn(n) => format!("in {n}"),
            Work::CopyOut(n) => format!("out {n}"),
            Work::Compare(n) => format!("compare {n}"),
        })
        .collect();
    assert_eq!(work, vec!["in d", "out a", "compare c", "compare b"]);
    assert_eq!(queue[0].name(), "d");
    assert!(matches!(queue[2].request(), MergeRequest::ReadBoth { .. }));
    assert!(contains_name(&a, &"c".to_string()));
    assert!(!contains_name(&a, &"d".to_string()));
}

#[test]
fn files_of_keeps_the_files_in_listing_order() {
    let listing = vec![Entry::file("b"), Entry::directory("dir"), Entry::file("a")];
    assert_eq!(files_of(&listing), vec!["b", "a"]);
    assert!(listing[0].is_file() && !listing[1].is_file());
    assert_eq!(Side::A.other(), Side::B);
    assert_eq!(Side::B.other(), Side::A);
}

#[test]
fn the_paths_of_a_file_lie_below_the_root() {
    let config = MergeConfig { root: "/data/app".to_string(), directory: "calendars".to_string() };
    assert_eq!(config.original_path("z.ics"), "/data/app/calendars/z.ics");
    assert_eq!(config.recovery_path("z.ics"), "/data/app/deleted/calendars/z.ics");
}

#[test]
fn bytes_are_compared_and_copied_whole() {
    assert!(bytes_equal(&b"abc".to_vec(), &b"abc".to_vec()));
    assert!(!bytes_equal(&b"abc".to_vec(), &b"abd".to_vec()));
    assert!(!bytes_equal(&b"abc".to_vec(), &b"ab".to_vec()));
    assert!(bytes_equal(&Vec::new(), &Vec::new()));
    assert_eq!(copy_bytes(&b"xyz".to_vec()), b"xyz");
    assert_eq!(Merge::copy_failure(Error::new(ErrorKind::NotFound, "x")).kind, ErrorKind::NotFound);
}
