use davsync::dir::{ChildRow, ExternalDir, ExternalDirEntry};
use davsync::entry::EntryKind;
use davsync::error::{Error, ErrorKind};
use davsync::open::OpenRequest;
use davsync::options::{ExtraMode, OpenOptions};
use davsync::uri::{DocUri, Uri};

fn uri(segments: &[&str]) -> Uri {
    Uri {
        text: format!("content://provider/{}", segments.join("/")),
        path_segments: segments.iter().map(|s| s.to_string()).collect(),
    }
}

fn tree_uri(doc_id: &str) -> DocUri {
    DocUri::from_tree_uri(uri(&["tree", "primary:sync", "document", doc_id])).unwrap()
}

fn row(doc_id: &str, mime: &str) -> ChildRow {
    ChildRow {
        uri: uri(&["tree", "primary:sync", "document", doc_id]),
        doc_id: doc_id.to_string(),
        mime_type: mime.to_string(),
        flags: 0,
    }
}

#[test]
fn from_tree_uri_takes_a_tree_and_a_document() {
    let doc = tree_uri("primary:sync/calendars");
    assert_eq!(doc.as_str(), "content://provider/tree/primary:sync/document/primary:sync/calendars");
    assert_eq!(doc.as_uri().path_segments.len(), 4);
}

#[test]
fn from_tree_uri_says_what_is_missing() {
    let cases: [(&[&str], &str); 6] = [
        (&[], "Unexpected end of Uri Segments"),
        (&["document", "x"], "DocUri must have Document Tree"),
        (&["tree"], "DocUri has Document Tree, but does not have a value for it"),
        (&["tree", "t"], "Unexpected end of Uri Segments"),
        (&["tree", "t", "tree", "x"], "DocUri must have Document Path"),
        (&["tree", "t", "document"], "DocUri has Document Path, but does not have a value for it"),
    ];
    for (segments, message) in cases {
        assert_eq!(DocUri::from_tree_uri(uri(segments)).unwrap_err(), message);
    }
}

#[test]
fn from_doc_uri_takes_a_document() {
    let doc = DocUri::from_doc_uri(uri(&["document", "primary:Download/work.ics"])).unwrap();
    assert_eq!(doc.file_name(), "work.ics");
    assert_eq!(doc.file_stem(), "work");
}

#[test]
fn from_doc_uri_says_what_is_missing() {
    let cases: [(&[&str], &str); 3] = [
        (&[], "Unexpected end of Uri Segments"),
        (&["tree", "t"], "DocUri must have Document Path"),
        (&["document"], "DocUri has Document Path, but does not have a value for it"),
    ];
    for (segments, message) in cases {
        assert_eq!(DocUri::from_doc_uri(uri(segments)).unwrap_err(), message);
    }
}

#[test]
fn a_locator_is_named_by_its_last_segment() {
    assert_eq!(tree_uri("primary:sync/calendars/work.ics").file_name(), "work.ics");
    assert_eq!(tree_uri("primary:sync/calendars/work.ics").file_stem(), "work");
    assert_eq!(tree_uri("primary:sync").file_name(), "sync");
}

#[test]
fn a_copy_of_a_locator_is_the_same_locator() {
    let doc = tree_uri("primary:sync/a");
    let copy = doc.clone();
    assert_eq!(copy.as_str(), doc.as_str());
    assert_eq!(copy.as_uri().path_segments, doc.as_uri().path_segments);
}

#[test]
fn each_open_mode_has_its_string() {
    assert_eq!(OpenOptions::ReadOnly.to_string(), "r");
    assert_eq!(OpenOptions::WriteOnly { extra: None }.to_string(), "w");
    assert_eq!(OpenOptions::WriteOnly { extra: Some(ExtraMode::Truncate) }.to_string(), "wt");
    assert_eq!(OpenOptions::WriteOnly { extra: Some(ExtraMode::Append) }.to_string(), "wa");
    assert_eq!(OpenOptions::ReadWrite { truncate: false }.to_string(), "rw");
    assert_eq!(OpenOptions::ReadWrite { truncate: true }.to_string(), "rwt");
    assert_eq!(OpenOptions::ReadWrite { truncate: true }.as_str(), "rwt");
}

#[test]
fn the_shortcuts_have_no_extra_options() {
    assert_eq!(OpenOptions::write(), OpenOptions::WriteOnly { extra: None });
    assert_eq!(OpenOptions::read_write(), OpenOptions::ReadWrite { truncate: false });
    assert_eq!(OpenOptions::default(), OpenOptions::ReadOnly);
}

#[test]
fn open_options_say_whether_they_read_and_write() {
    assert!(OpenOptions::ReadOnly.reads() && !OpenOptions::ReadOnly.writes());
    assert!(!OpenOptions::write().reads() && OpenOptions::write().writes());
    assert!(OpenOptions::read_write().reads() && OpenOptions::read_write().writes());
}

#[test]
fn an_entry_is_a_directory_by_its_media_type() {
    let dir = ExternalDirEntry::new(
        tree_uri("primary:sync/calendars"),
        "primary:sync/calendars".to_string(),
        "vnd.android.document/directory".to_string(),
        0,
    );
    assert!(dir.is_dir());
    assert_eq!(dir.file_name(), "calendars");
    assert_eq!(dir.entry().kind, EntryKind::Directory);
    let opened = dir.into_dir().unwrap();
    assert_eq!(opened.uri().file_name(), "calendars");

    let file = ExternalDirEntry::new(
        tree_uri("primary:sync/work.ics"),
        "primary:sync/work.ics".to_string(),
        "text/calendar".to_string(),
        5,
    );
    assert!(!file.is_dir());
    assert_eq!(file.file_name(), "work.ics");
    assert_eq!(file.file_stem(), "work");
    assert_eq!(file.mime_type(), "text/calendar");
    assert_eq!(file.uri().file_name(), "work.ics");
    assert_eq!(file.entry().kind, EntryKind::File);
    assert_eq!(file.entry().name, "work.ics");
    assert!(file.is_named(&"work.ics".to_string()));
    assert!(file.into_dir().is_none());
}

#[test]
fn a_directory_handle_is_given_for_a_directory_only() {
    assert!(ExternalDir::new(tree_uri("primary:sync"), Ok(true)).is_some());
    assert!(ExternalDir::new(tree_uri("primary:sync"), Ok(false)).is_none());
    assert!(ExternalDir::new(tree_uri("primary:sync"), Err("gone".to_string())).is_none());
}

#[test]
fn opening_what_is_no_directory_is_an_error() {
    let dir = ExternalDir::open(tree_uri("primary:sync"), Ok(true)).unwrap();
    assert_eq!(dir.uri().as_str(), tree_uri("primary:sync").as_str());
    let e = ExternalDir::open(tree_uri("primary:sync/a.ics"), Ok(false)).unwrap_err();
    assert_eq!(e.kind, ErrorKind::WrongKind);
    assert_eq!(e.context, "The locator does not name a directory");
    let e = ExternalDir::open(tree_uri("primary:sync"), Err("revoked".to_string())).unwrap_err();
    assert_eq!((e.kind, e.context.as_str()), (ErrorKind::ProviderFailure, "revoked"));
}

#[test]
fn entries_keeps_every_row_in_order() {
    let rows = vec![
        row("primary:sync/b.ics", "text/calendar"),
        row("primary:sync/a", "vnd.android.document/directory"),
        row("primary:sync/c.ics", "text/calendar"),
    ];
    let entries = ExternalDir::entries(Ok(rows)).unwrap();
    let names: Vec<&str> = entries.iter().map(|e| e.file_name()).collect();
    assert_eq!(names, vec!["b.ics", "a", "c.ics"]);
    assert!(ExternalDir::file_exists(&entries, "a"));
    assert!(!ExternalDir::file_exists(&entries, "d"));
    assert_eq!(ExternalDir::position(&entries, "c.ics"), Some(2));
    assert_eq!(ExternalDir::position(&entries, "nope"), None);
}

#[test]
fn entries_passes_the_providers_failure_on() {
    let e: Error = ExternalDir::entries(Err("permission denied".to_string())).unwrap_err();
    assert_eq!(e.kind, ErrorKind::ProviderFailure);
    assert_eq!(e.context, "Failed to query entries: permission denied");
}

#[test]
fn entries_refuses_a_row_with_a_malformed_locator() {
    let mut bad = row("primary:sync/x", "text/plain");
    bad.uri = uri(&["document", "primary:sync/x"]);
    let rows = vec![row("primary:sync/a.ics", "text/calendar"), bad];
    let e = ExternalDir::entries(Ok(rows)).unwrap_err();
    assert_eq!(e.kind, ErrorKind::ProviderFailure);
    assert_eq!(e.context, "Listing holds an invalid DocUri: DocUri must have Document Tree");
}

#[test]
fn open_file_asks_for_the_locator_and_the_mode() {
    let doc = tree_uri("primary:sync/work.ics");
    let request = doc.open_file(OpenOptions::ReadOnly);
    assert_eq!(request.uri.as_str(), doc.as_str());
    assert_eq!(request.path, None);
    assert_eq!(request.mode, "r");

    let dir = ExternalDir::new(tree_uri("primary:sync"), Ok(true)).unwrap();
    let request = dir.open_file("calendars/work.ics", OpenOptions::write()).unwrap();
    assert_eq!(request.uri.as_str(), dir.uri().as_str());
    assert_eq!(request.path.as_deref(), Some("calendars/work.ics"));
    assert_eq!(request.mode, "w");
}

#[test]
fn open_file_refuses_an_absolute_path() {
    let dir = ExternalDir::new(tree_uri("primary:sync"), Ok(true)).unwrap();
    let e = dir.open_file("/calendars/work.ics", OpenOptions::ReadOnly).unwrap_err();
    assert_eq!(e.kind, ErrorKind::InvalidInput);
    assert_eq!(e.context, "Path argument must be a relative path; provided absolute path");
}

#[test]
fn the_answer_to_an_open_request_is_a_descriptor_or_an_error() {
    assert_eq!(OpenRequest::opened(Ok(Some(7))).unwrap(), 7);
    let crashed = OpenRequest::opened(Ok(None)).unwrap_err();
    assert_eq!(crashed.kind, ErrorKind::ProviderFailure);
    assert_eq!(crashed.context, "Failed to open file because ContentProvider crashed");
    let missing = OpenRequest::opened(Err("no such file".to_string())).unwrap_err();
    assert_eq!(missing.kind, ErrorKind::NotFound);
    assert_eq!(missing.context, "no such file");
}

#[test]
fn a_joined_locator_comes_from_the_provider() {
    let joined = DocUri::join(Some(uri(&["tree", "t", "document", "primary:sync/calendars"])));
    assert_eq!(joined.unwrap().file_name(), "calendars");
    let plain = DocUri::join(Some(uri(&["document", "primary:x/y.ics"])));
    assert_eq!(plain.unwrap().file_name(), "y.ics");
    let none = DocUri::join(None).unwrap_err();
    assert_eq!(none.kind, ErrorKind::InvalidInput);
    let bad = DocUri::join(Some(uri(&["other"]))).unwrap_err();
    assert_eq!(bad.kind, ErrorKind::ProviderFailure);
}

#[test]
fn an_error_reads_as_kind_and_context() {
    let e = Error::new(ErrorKind::AlreadyExists, "work.ics");
    assert_eq!(e.message(), "already exists: work.ics");
    let e = Error::with_detail(ErrorKind::ProviderFailure, "query: ", "denied");
    assert_eq!(e.message(), "provider failure: query: denied");
    assert_eq!(Error::new(ErrorKind::NotFound, "").message(), "not found: ");
    assert_eq!(Error::new(ErrorKind::InvalidInput, "x").message(), "invalid input: x");
    assert_eq!(Error::new(ErrorKind::WrongKind, "x").message(), "wrong kind: x");
    assert_eq!(
        Error::new(ErrorKind::InternalInvariantViolation, "x").message(),
        "internal invariant violation: x"
    );
}
