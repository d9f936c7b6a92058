use std::collections::BTreeMap;

use davsync::create::{Created, Creation, Progress};
use davsync::dir::{ChildRow, ExternalDir};
use davsync::error::{Error, ErrorKind};
use davsync::provider::{Reply, Request};
use davsync::uri::{DocUri, Uri};

const DIR: &str = "vnd.android.document/directory";

/// A document tree in memory: the rows of each directory, by document id.
struct Provider {
    children: BTreeMap<String, Vec<(String, String)>>,
    requests: Vec<String>,
}

fn uri_of(doc_id: &str) -> Uri {
    Uri {
        text: format!("content://docs/tree/root/document/{doc_id}"),
        path_segments: vec![
            "tree".to_string(),
            "root".to_string(),
            "document".to_string(),
            doc_id.to_string(),
        ],
    }
}

fn doc_id_of(uri: &DocUri) -> String {
    uri.as_uri().path_segments[3].clone()
}

fn extension_for(mime: &str) -> &'static str {
    match mime {
        "text/calendar" => ".ics",
        "text/plain" => ".txt",
        "application/octet-stream" => ".bin",
        _ => "",
    }
}

impl Provider {
    fn new() -> Provider {
        let mut children = BTreeMap::new();
        children.insert("primary:root".to_string(), Vec::new());
        Provider { children, requests: Vec::new() }
    }

    fn root(&self) -> ExternalDir {
        let uri = DocUri::from_tree_uri(uri_of("primary:root")).unwrap();
        ExternalDir::new(uri, Ok(true)).unwrap()
    }

    fn add(&mut self, parent: &str, name: &str, mime: &str) {
        let doc_id = format!("{parent}/{name}");
        self.children.get_mut(parent).unwrap().push((doc_id.clone(), mime.to_string()));
        if mime == DIR {
            self.children.insert(doc_id, Vec::new());
        }
    }

    fn serve(&mut self, request: Request) -> Reply {
        match request {
            Request::ListChildren { dir } => {
                let id = doc_id_of(&dir);
                self.requests.push(format!("list {id}"));
                match self.children.get(&id) {
                    None => Reply::Children(Err(format!("no directory {id}"))),
                    Some(rows) => Reply::Children(Ok(rows
                        .iter()
                        .map(|(doc_id, mime)| ChildRow {
                            uri: uri_of(doc_id),
                            doc_id: doc_id.clone(),
                            mime_type: mime.clone(),
                            flags: 0,
                        })
                        .collect())),
                }
            }
            Request::CreateDocument { parent, mime, display_name } => {
                let id = doc_id_of(&parent);
                let name = format!("{display_name}{}", extension_for(&mime));
                self.requests.push(format!("create {id} {mime} {display_name}"));
                if !self.children.contains_key(&id) {
                    return Reply::Created(Err(format!("no directory {id}")));
                }
                self.add(&id, &name, &mime);
                Reply::Created(Ok(Some(uri_of(&format!("{id}/{name}")))))
            }
        }
    }

    fn run(&mut self, mut progress: Progress) -> Result<Created, Error> {
        loop {
            match progress {
                Progress::Done(result) => return result,
                Progress::Ask(creation, request) => {
                    let reply = self.serve(request);
                    progress = creation.step(reply);
                }
            }
        }
    }

    fn snapshot(&self) -> BTreeMap<String, Vec<(String, String)>> {
        self.children.clone()
    }
}

fn dir_id(created: Created) -> String {
    match created {
        Created::Directory(dir) => doc_id_of(dir.uri()),
        Created::File(_) => panic!("a file, not a directory"),
    }
}

fn file_id(created: Created) -> String {
    match created {
        Created::File(uri) => doc_id_of(&uri),
        Created::Directory(_) => panic!("a directory, not a file"),
    }
}

#[test]
fn create_dir_at_creates_three_nested_directories() {
    let mut provider = Provider::new();
    let root = provider.root();
    let made = provider.run(root.create_dir_at("a/b/c")).unwrap();
    assert_eq!(dir_id(made), "primary:root/a/b/c");
    assert_eq!(provider.children["primary:root"], vec![("primary:root/a".to_string(), DIR.to_string())]);
    assert_eq!(provider.children["primary:root/a"], vec![("primary:root/a/b".to_string(), DIR.to_string())]);
    assert_eq!(provider.children["primary:root/a/b"], vec![("primary:root/a/b/c".to_string(), DIR.to_string())]);
    assert!(provider.children["primary:root/a/b/c"].is_empty());
    assert_eq!(provider.children.len(), 4);
}

#[test]
fn create_dir_at_a_second_time_changes_nothing() {
    let mut provider = Provider::new();
    let root = provider.root();
    let first = provider.run(root.create_dir_at("a/b/c")).unwrap();
    let after_first = provider.snapshot();
    provider.requests.clear();
    let second = provider.run(root.create_dir_at("a/b/c")).unwrap();
    assert_eq!(dir_id(first), dir_id(second));
    assert_eq!(provider.snapshot(), after_first);
    assert_eq!(
        provider.requests,
        vec!["list primary:root", "list primary:root/a", "list primary:root/a/b"]
    );
}

#[test]
fn create_dir_at_opens_what_exists_and_creates_the_rest() {
    let mut provider = Provider::new();
    provider.add("primary:root", "a", DIR);
    let root = provider.root();
    let made = provider.run(root.create_dir_at("a/b")).unwrap();
    assert_eq!(dir_id(made), "primary:root/a/b");
    assert_eq!(
        provider.requests,
        vec![
            "list primary:root".to_string(),
            "list primary:root/a".to_string(),
            format!("create primary:root/a {DIR} b"),
        ]
    );
}

#[test]
fn create_dir_at_fails_where_a_file_has_the_name() {
    let mut provider = Provider::new();
    provider.add("primary:root", "a", DIR);
    provider.add("primary:root/a", "b", "text/plain");
    let before = provider.snapshot();
    let root = provider.root();
    let e = provider.run(root.create_dir_at("a/b/c")).unwrap_err();
    assert_eq!(e.kind, ErrorKind::AlreadyExists);
    assert_eq!(
        e.context,
        "One of the descendant directories in the path already exists, but it is a file"
    );
    assert_eq!(provider.snapshot(), before);
}

#[test]
fn create_dir_at_refuses_a_bad_path_before_asking_anything() {
    let mut provider = Provider::new();
    let root = provider.root();
    for path in ["/a", "a/../b", "./a", "", "a/./b"] {
        let e = provider.run(root.create_dir_at(path)).unwrap_err();
        assert_eq!(e.kind, ErrorKind::InvalidInput);
    }
    assert!(provider.requests.is_empty());
    assert_eq!(provider.children.len(), 1);
}

#[test]
fn create_dir_opens_an_existing_directory() {
    let mut provider = Provider::new();
    let root = provider.root();
    let first = provider.run(root.create_dir("calendars")).unwrap();
    let second = provider.run(root.create_dir("calendars")).unwrap();
    assert_eq!(dir_id(first), "primary:root/calendars");
    assert_eq!(dir_id(second), "primary:root/calendars");
    assert_eq!(provider.children["primary:root"].len(), 1);
}

#[test]
fn create_dir_fails_where_a_file_has_the_name() {
    let mut provider = Provider::new();
    provider.add("primary:root", "calendars", "text/plain");
    let root = provider.root();
    let e = provider.run(root.create_dir("calendars")).unwrap_err();
    assert_eq!(e.kind, ErrorKind::AlreadyExists);
}

#[test]
fn create_file_at_creates_the_directory_and_then_the_file() {
    let mut provider = Provider::new();
    let root = provider.root();
    let made = provider.run(root.create_file_at("sub/new.ics")).unwrap();
    assert_eq!(file_id(made), "primary:root/sub/new.ics");
    assert_eq!(
        provider.requests,
        vec![
            "list primary:root".to_string(),
            format!("create primary:root {DIR} sub"),
            "list primary:root/sub".to_string(),
            "create primary:root/sub text/calendar new".to_string(),
        ]
    );
    assert_eq!(
        provider.children["primary:root/sub"],
        vec![("primary:root/sub/new.ics".to_string(), "text/calendar".to_string())]
    );
}

#[test]
fn create_file_at_a_second_time_fails_and_changes_nothing() {
    let mut provider = Provider::new();
    let root = provider.root();
    provider.run(root.create_file_at("sub/new.ics")).unwrap();
    let after_first = provider.snapshot();
    let e = provider.run(root.create_file_at("sub/new.ics")).unwrap_err();
    assert_eq!(e.kind, ErrorKind::AlreadyExists);
    assert_eq!(e.context, "A file named new.ics already exists");
    assert_eq!(provider.snapshot(), after_first);
}

#[test]
fn create_file_at_takes_a_single_name() {
    let mut provider = Provider::new();
    let root = provider.root();
    let made = provider.run(root.create_file_at("new.ics")).unwrap();
    assert_eq!(file_id(made), "primary:root/new.ics");
}

#[test]
fn create_file_fails_where_anything_has_the_name() {
    let mut provider = Provider::new();
    provider.add("primary:root", "taken.ics", DIR);
    let root = provider.root();
    let e = provider.run(root.create_file("taken.ics")).unwrap_err();
    assert_eq!(e.kind, ErrorKind::AlreadyExists);
    assert_eq!(provider.requests, vec!["list primary:root"]);
}

#[test]
fn create_file_refuses_a_name_without_extension() {
    let mut provider = Provider::new();
    let root = provider.root();
    for name in ["noext", ".hidden"] {
        let e = provider.run(root.create_file(name)).unwrap_err();
        assert_eq!(e.kind, ErrorKind::InvalidInput);
        assert_eq!(e.context, "File name has no extension");
    }
    assert!(provider.children["primary:root"].is_empty());
}

#[test]
fn create_file_and_create_dir_refuse_what_is_no_name() {
    let mut provider = Provider::new();
    let root = provider.root();
    for name in ["", ".", "..", "a/b.ics", "/a.ics", "a/"] {
        let e = provider.run(root.create_file(name)).unwrap_err();
        assert_eq!((e.kind, e.context.as_str()), (ErrorKind::InvalidInput, "Invalid filename"));
        let e = provider.run(root.create_dir(name)).unwrap_err();
        assert_eq!((e.kind, e.context.as_str()), (ErrorKind::InvalidInput, "Invalid filename"));
    }
    assert!(provider.requests.is_empty());
}

#[test]
fn create_file_guesses_the_media_type_from_the_extension() {
    let mut provider = Provider::new();
    let root = provider.root();
    provider.run(root.create_file("notes.txt")).unwrap();
    provider.run(root.create_file("data.unknownext")).unwrap();
    provider.run(root.create_file("UPPER.ICS")).unwrap();
    assert_eq!(
        provider.requests,
        vec![
            "list primary:root",
            "create primary:root text/plain notes",
            "list primary:root",
            "create primary:root application/octet-stream data",
            "list primary:root",
            "create primary:root text/calendar UPPER",
        ]
    );
}

#[test]
fn a_failed_listing_ends_the_creation() {
    let mut provider = Provider::new();
    provider.children.clear();
    let root = provider.root();
    let e = provider.run(root.create_dir_at("a")).unwrap_err();
    assert_eq!(e.kind, ErrorKind::ProviderFailure);
    assert_eq!(e.context, "Failed to query entries: no directory primary:root");
}

#[test]
fn the_answer_to_a_create_request_is_a_locator_or_an_error() {
    let made = ExternalDir::create_document(Ok(Some(uri_of("primary:root/x")))).unwrap();
    assert_eq!(made.file_name(), "x");
    let failed = ExternalDir::create_document(Err("quota".to_string())).unwrap_err();
    assert_eq!((failed.kind, failed.context.as_str()), (ErrorKind::ProviderFailure, "quota"));
    let none = ExternalDir::create_document(Ok(None)).unwrap_err();
    assert_eq!(none.kind, ErrorKind::ProviderFailure);
    assert_eq!(none.context, "Failed to create the document, unknown reason");
    let bad = Uri { text: "content://docs/document/x".to_string(), path_segments: vec!["document".to_string(), "x".to_string()] };
    let invalid = ExternalDir::create_document(Ok(Some(bad))).unwrap_err();
    assert_eq!(invalid.kind, ErrorKind::ProviderFailure);
    assert_eq!(
        invalid.context,
        "DocumentsContract.createDocument() returned an invalid DocUri: DocUri must have Document Tree"
    );
}

#[test]
fn a_reply_that_does_not_answer_the_request_ends_the_creation() {
    let provider = Provider::new();
    let root = provider.root();
    match root.create_dir("a") {
        Progress::Ask(creation, Request::ListChildren { .. }) => {
            assert!(!creation.is_creating());
            match creation.step(Reply::Created(Ok(None))) {
                Progress::Done(Err(e)) => {
                    assert_eq!(e.kind, ErrorKind::InternalInvariantViolation)
                }
                _ => panic!("the creation went on"),
            }
        }
        _ => panic!("no listing was asked for"),
    }
    match root.create_dir("a") {
        Progress::Ask(creation, _) => match creation.step(Reply::Children(Ok(Vec::new()))) {
            Progress::Ask(creation, Request::CreateDocument { display_name, mime, .. }) => {
                assert!(creation.is_creating());
                assert_eq!(display_name, "a");
                assert_eq!(mime, DIR);
                match creation.step(Reply::Children(Ok(Vec::new()))) {
                    Progress::Done(Err(e)) => {
                        assert_eq!(e.kind, ErrorKind::InternalInvariantViolation)
                    }
                    _ => panic!("the creation went on"),
                }
            }
            _ => panic!("no document was asked for"),
        },
        _ => panic!("no listing was asked for"),
    }
}

#[test]
fn a_creation_of_nothing_ends_at_once() {
    let provider = Provider::new();
    let root = provider.root();
    match Creation::begin(&root, Vec::new(), None) {
        Progress::Done(Ok(Created::Directory(dir))) => {
            assert_eq!(doc_id_of(dir.uri()), "primary:root")
        }
        _ => panic!("the creation asked for something"),
    }
}
