use davsync::error::ErrorKind;
use davsync::layout::{directories, is_illegal_file_name, missing_directories};
use davsync::names::{
    base_name, doc_path_file_name, extension, file_stem, find_char, is_name, rfind_char,
    split_path,
};

#[test]
fn file_stem_cuts_the_extension() {
    assert_eq!(file_stem("work.ics"), "work");
    assert_eq!(file_stem("a.b.c"), "a.b");
    assert_eq!(file_stem("plain"), "plain");
    assert_eq!(file_stem("trailing."), "trailing");
}

#[test]
fn file_stem_sets_a_leading_dot_aside() {
    assert_eq!(file_stem(".hidden"), ".hidden");
    assert_eq!(file_stem(".hidden.ics"), "hidden");
    assert_eq!(file_stem("."), ".");
    assert_eq!(file_stem(""), "");
    assert_eq!(file_stem(".."), "");
}

#[test]
fn file_stem_counts_characters_not_bytes() {
    assert_eq!(file_stem("früh.ics"), "früh");
    assert_eq!(file_stem("日本.語.ics"), "日本.語");
}

#[test]
fn doc_path_file_name_takes_the_last_component() {
    assert_eq!(doc_path_file_name("primary:calendars/work.ics"), "work.ics");
    assert_eq!(doc_path_file_name("primary:a/b/c"), "c");
    assert_eq!(doc_path_file_name("primary:calendars"), "calendars");
    assert_eq!(doc_path_file_name("calendars"), "calendars");
    assert_eq!(doc_path_file_name("primary:"), "");
    assert_eq!(doc_path_file_name("a:b:c"), "b:c");
    assert_eq!(doc_path_file_name("a:b/c:d"), "c:d");
}

#[test]
fn find_char_gives_the_first_and_rfind_char_the_last() {
    assert_eq!(find_char("a.b.c", '.'), Some(1));
    assert_eq!(rfind_char("a.b.c", '.'), Some(3));
    assert_eq!(find_char("abc", '.'), None);
    assert_eq!(rfind_char("", '.'), None);
    assert_eq!(rfind_char("é.x", '.'), Some(1));
}

#[test]
fn extension_is_what_follows_the_last_dot() {
    assert_eq!(extension("new.ics"), Some("ics"));
    assert_eq!(extension("a.tar.gz"), Some("gz"));
    assert_eq!(extension("noext"), None);
    assert_eq!(extension(".hidden"), None);
    assert_eq!(extension("dot."), Some(""));
}

#[test]
fn base_name_is_what_stands_before_the_extension() {
    assert_eq!(base_name("new.ics"), "new");
    assert_eq!(base_name("a.tar.gz"), "a.tar");
    assert_eq!(base_name("noext"), "noext");
    assert_eq!(base_name(".hidden"), ".hidden");
}

#[test]
fn split_path_gives_the_components() {
    assert_eq!(split_path("a/b/c").unwrap(), vec!["a", "b", "c"]);
    assert_eq!(split_path("single").unwrap(), vec!["single"]);
    assert_eq!(split_path("sub/new.ics").unwrap(), vec!["sub", "new.ics"]);
}

#[test]
fn split_path_skips_empty_segments() {
    assert_eq!(split_path("a//b").unwrap(), vec!["a", "b"]);
    assert_eq!(split_path("a/b/").unwrap(), vec!["a", "b"]);
}

#[test]
fn split_path_refuses_an_absolute_path() {
    let e = split_path("/a/b").unwrap_err();
    assert_eq!(e.kind, ErrorKind::InvalidInput);
    assert_eq!(e.context, "Path argument must be a relative path; provided absolute path");
}

#[test]
fn split_path_refuses_dot_components() {
    for path in ["..", "a/../b", "./a", "a/.", ".", "a/./b"] {
        let e = split_path(path).unwrap_err();
        assert_eq!(e.kind, ErrorKind::InvalidInput);
        assert_eq!(
            e.context,
            "Path contains invalid components (e.g. \"..\"), must be a relative path"
        );
    }
    assert_eq!(split_path("a/...").unwrap(), vec!["a", "..."]);
    assert_eq!(split_path(".a/b.").unwrap(), vec![".a", "b."]);
}

#[test]
fn split_path_refuses_an_empty_path() {
    let e = split_path("").unwrap_err();
    assert_eq!(e.kind, ErrorKind::InvalidInput);
    assert_eq!(e.context, "Path must not be empty");
}

#[test]
fn a_name_is_not_empty_has_no_slash_and_is_not_dots() {
    for name in ["a", "a.ics", "...", ".a", "a:b", "ä"] {
        assert!(is_name(name));
    }
    for name in ["", ".", "..", "a/b", "/", "a/"] {
        assert!(!is_name(name));
    }
}

#[test]
fn the_canonical_directories_are_calendars_and_contacts() {
    assert_eq!(directories(), vec!["calendars", "contacts"]);
}

#[test]
fn missing_directories_are_those_not_listed() {
    let none: Vec<String> = Vec::new();
    assert_eq!(missing_directories(&none), vec!["calendars", "contacts"]);
    let some = vec!["contacts".to_string(), "other".to_string()];
    assert_eq!(missing_directories(&some), vec!["calendars"]);
    let all = vec!["calendars".to_string(), "contacts".to_string()];
    assert!(missing_directories(&all).is_empty());
}

#[test]
fn a_file_name_with_a_slash_a_star_or_a_colon_is_illegal() {
    assert!(is_illegal_file_name("a/b.ics"));
    assert!(is_illegal_file_name("a*.ics"));
    assert!(is_illegal_file_name("primary:a.ics"));
    assert!(!is_illegal_file_name("work.ics"));
    assert!(!is_illegal_file_name(""));
}
