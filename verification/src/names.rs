//! File names and relative paths, as sequences of characters.

use vstd::prelude::*;
use vstd::string::*;
use crate::error::{Error, ErrorKind, ErrorView};

verus! {

/// The name without its extension: a leading `.` is set aside, and what is
/// left is cut before its last `.`; a name with no other `.` is kept whole.
pub open spec fn file_stem_of(name: Seq<char>) -> Seq<char> {
    let body = if name.len() > 0 && name[0] == '.' { name.skip(1) } else { name };
    match body.index_of_last('.') {
        Some(i) => body.take(i),
        None => name,
    }
}

/// The file name inside a document path: what follows the last `/`, or, in a
/// path of one component, what follows the first `:`.
pub open spec fn doc_path_file_name_of(doc_path: Seq<char>) -> Seq<char> {
    match doc_path.index_of_last('/') {
        Some(i) => doc_path.skip(i + 1),
        None => match doc_path.index_of_first(':') {
            Some(i) => doc_path.skip(i + 1),
            None => doc_path,
        },
    }
}

/// The extension of a name: what follows its last `.`, unless that `.` is
/// the name's first character or the name has none.
pub open spec fn extension_of(name: Seq<char>) -> Option<Seq<char>> {
    match name.index_of_last('.') {
        Some(i) => if i == 0 { None } else { Some(name.skip(i + 1)) },
        None => None,
    }
}

/// The name up to the `.` that starts its extension; the whole name where it
/// has no extension.
pub open spec fn base_name_of(name: Seq<char>) -> Seq<char> {
    match name.index_of_last('.') {
        Some(i) => if i == 0 { name } else { name.take(i) },
        None => name,
    }
}

/// The position of the last `c` in `s`, counted in characters.
pub fn rfind_char(s: &str, c: char) -> (r: Option<usize>)
    ensures
        match r {
            Some(i) => {
                &&& i < s@.len()
                &&& s@[i as int] == c
                &&& forall|j: int| i < j < s@.len() ==> s@[j] != c
                &&& s@.index_of_last(c) == Some(i as int)
            },
            None => !s@.contains(c) && s@.index_of_last(c) is None,
        },
{
    let len = s.unicode_len();
    let mut i: usize = len;
    while i > 0
        invariant
            i <= len,
            len == s@.len(),
            forall|j: int| i <= j < len ==> s@[j] != c,
        decreases i,
    {
        i -= 1;
        if s.get_char(i) == c {
            proof {
                s@.index_of_last_ensures(c);
                assert(s@[i as int] == c);
                let k = s@.index_of_last(c).unwrap();
                assert(s@[k] == c);
                assert(k == i);
            }
            return Some(i);
        }
    }
    proof {
        s@.index_of_last_ensures(c);
    }
    None
}

/// The position of the first `c` in `s`, counted in characters.
pub fn find_char(s: &str, c: char) -> (r: Option<usize>)
    ensures
        match r {
            Some(i) => {
                &&& i < s@.len()
                &&& s@[i as int] == c
                &&& forall|j: int| 0 <= j < i ==> s@[j] != c
                &&& s@.index_of_first(c) == Some(i as int)
            },
            None => !s@.contains(c) && s@.index_of_first(c) is None,
        },
{
    let len = s.unicode_len();
    let mut i: usize = 0;
    while i < len
        invariant
            i <= len,
            len == s@.len(),
            forall|j: int| 0 <= j < i ==> s@[j] != c,
        decreases len - i,
    {
        if s.get_char(i) == c {
            proof {
                s@.index_of_first_ensures(c);
                assert(s@[i as int] == c);
                let k = s@.index_of_first(c).unwrap();
                assert(s@[k] == c);
                assert(k == i);
            }
            return Some(i);
        }
        i += 1;
    }
    proof {
        s@.index_of_first_ensures(c);
    }
    None
}

/// Get the file name (*without extension*) from a file name.
pub fn file_stem(file_name: &str) -> (stem: &str)
    ensures
        stem@ == file_stem_of(file_name@),
{
    let len = file_name.unicode_len();
    let start: usize = if len > 0 && file_name.get_char(0) == '.' { 1 } else { 0 };
    let body = file_name.substring_char(start, len);
    assert(body@ =~= if start == 1 { file_name@.skip(1) } else { file_name@ });
    match rfind_char(body, '.') {
        Some(i) => {
            proof {
                body@.index_of_last_ensures('.');
            }
            body.substring_char(0, i)
        },
        None => file_name,
    }
}

/// Get the file name out of the document path of a document locator.
pub fn doc_path_file_name(doc_path: &str) -> (name: &str)
    ensures
        name@ == doc_path_file_name_of(doc_path@),
{
    let len = doc_path.unicode_len();
    match rfind_char(doc_path, '/') {
        Some(i) => {
            proof {
                doc_path@.index_of_last_ensures('/');
            }
            doc_path.substring_char(i + 1, len)
        },
        None => match find_char(doc_path, ':') {
            Some(i) => {
                proof {
                    doc_path@.index_of_first_ensures(':');
                }
                doc_path.substring_char(i + 1, len)
            },
            None => doc_path,
        },
    }
}

/// The extension of a file name, if it has one.
pub fn extension(file_name: &str) -> (ext: Option<&str>)
    ensures
        match ext {
            Some(e) => extension_of(file_name@) == Some(e@),
            None => extension_of(file_name@) is None,
        },
{
    let len = file_name.unicode_len();
    match rfind_char(file_name, '.') {
        Some(i) => {
            proof {
                file_name@.index_of_last_ensures('.');
            }
            if i == 0 {
                None
            } else {
                Some(file_name.substring_char(i + 1, len))
            }
        },
        None => None,
    }
}

/// The file name up to its extension.
pub fn base_name(file_name: &str) -> (base: &str)
    ensures
        base@ == base_name_of(file_name@),
{
    match rfind_char(file_name, '.') {
        Some(i) => {
            proof {
                file_name@.index_of_last_ensures('.');
            }
            if i == 0 {
                file_name
            } else {
                file_name.substring_char(0, i)
            }
        },
        None => file_name,
    }
}

/// The views of a sequence of strings.
pub open spec fn strings_view(v: Seq<String>) -> Seq<Seq<char>> {
    v.map_values(|s: String| s@)
}

/// The view of a sequence of strings holds the view of each of them.
pub proof fn lemma_strings_view_index(v: Seq<String>)
    ensures
        strings_view(v).len() == v.len(),
        forall|i: int| 0 <= i < v.len() ==> #[trigger] strings_view(v)[i] == v[i]@,
{
}

/// A copy of each string, in order.
pub fn clone_strings(v: &Vec<String>) -> (copy: Vec<String>)
    ensures
        strings_view(copy@) == strings_view(v@),
{
    let mut copy: Vec<String> = Vec::new();
    let mut i: usize = 0;
    while i < v.len()
        invariant
            i <= v.len(),
            copy@.len() == i,
            forall|j: int| 0 <= j < i ==> copy@[j]@ == v@[j]@,
        decreases v.len() - i,
    {
        copy.push(v[i].clone());
        i += 1;
    }
    assert(strings_view(copy@) =~= strings_view(v@));
    copy
}

/// The view of an optional string.
pub open spec fn option_view(s: Option<String>) -> Option<Seq<char>> {
    match s {
        Some(s) => Some(s@),
        None => None,
    }
}

/// Whether a path starts at the root.
pub open spec fn path_is_absolute(path: Seq<char>) -> bool {
    path.len() > 0 && path[0] == '/'
}

/// Whether a component is `.` or `..`.
pub open spec fn is_dots(component: Seq<char>) -> bool {
    ||| component.len() == 1 && component[0] == '.'
    ||| component.len() == 2 && component[0] == '.' && component[1] == '.'
}

/// Whether `name` can name an entry of a directory: it is not empty, holds
/// no `/` and is neither `.` nor `..`.
pub open spec fn is_entry_name(name: Seq<char>) -> bool {
    name.len() > 0 && !name.contains('/') && !is_dots(name)
}

/// Whether none of the components is `.` or `..`.
pub open spec fn all_normal(components: Seq<Seq<char>>) -> bool {
    forall|i: int| 0 <= i < components.len() ==> !is_dots(#[trigger] components[i])
}

/// `done` with the segment `open` closed: an empty segment adds nothing.
pub open spec fn close_segment(done: Seq<Seq<char>>, open: Seq<char>) -> Seq<Seq<char>> {
    if open.len() == 0 {
        done
    } else {
        done.push(open)
    }
}

/// A path read from left to right: the segments that a `/` has closed, empty
/// ones left out, and the segment that is still open.
pub open spec fn scan_path(path: Seq<char>) -> (Seq<Seq<char>>, Seq<char>)
    decreases path.len(),
{
    if path.len() == 0 {
        (Seq::empty(), Seq::empty())
    } else {
        let (done, open) = scan_path(path.drop_last());
        if path.last() == '/' {
            (close_segment(done, open), Seq::empty())
        } else {
            (done, open.push(path.last()))
        }
    }
}

/// The components of a path: its maximal runs of characters other than `/`.
pub open spec fn path_components(path: Seq<char>) -> Seq<Seq<char>> {
    let (done, open) = scan_path(path);
    close_segment(done, open)
}

/// An error of kind `InvalidInput`.
pub open spec fn invalid_input(context: Seq<char>) -> ErrorView {
    ErrorView { kind: ErrorKind::InvalidInput, context }
}

/// What splitting a path gives: its components, or why it is refused. An
/// absolute path, a path with a `.` or `..` component and a path without
/// components are refused, in this order.
pub open spec fn split_path_spec(path: Seq<char>) -> Result<Seq<Seq<char>>, ErrorView> {
    let components = path_components(path);
    if path_is_absolute(path) {
        Err(invalid_input("Path argument must be a relative path; provided absolute path"@))
    } else if !all_normal(components) {
        Err(
            invalid_input(
                "Path contains invalid components (e.g. \"..\"), must be a relative path"@,
            ),
        )
    } else if components.len() == 0 {
        Err(invalid_input("Path must not be empty"@))
    } else {
        Ok(components)
    }
}

/// Every component of a path is non-empty and holds no `/`.
pub proof fn lemma_components_are_names(path: Seq<char>)
    ensures
        forall|i: int|
            0 <= i < path_components(path).len() ==> {
                &&& (#[trigger] path_components(path)[i]).len() > 0
                &&& !path_components(path)[i].contains('/')
            },
{
    lemma_scan_holds_names(path);
}

/// Every component of a path that is split can name an entry of a
/// directory.
pub proof fn lemma_split_gives_entry_names(path: Seq<char>)
    requires
        split_path_spec(path) is Ok,
    ensures
        forall|i: int|
            0 <= i < split_path_spec(path)->Ok_0.len() ==> is_entry_name(
                #[trigger] split_path_spec(path)->Ok_0[i],
            ),
{
    lemma_components_are_names(path);
}

proof fn lemma_scan_holds_names(path: Seq<char>)
    ensures
        forall|i: int|
            0 <= i < scan_path(path).0.len() ==> {
                &&& (#[trigger] scan_path(path).0[i]).len() > 0
                &&& !scan_path(path).0[i].contains('/')
            },
        !scan_path(path).1.contains('/'),
    decreases path.len(),
{
    if path.len() > 0 {
        lemma_scan_holds_names(path.drop_last());
        let (done, open) = scan_path(path.drop_last());
        if path.last() != '/' {
            let grown = open.push(path.last());
            assert forall|j: int| 0 <= j < grown.len() implies grown[j] != '/' by {
                if j < open.len() {
                    assert(open.contains(open[j]));
                }
            }
        }
    }
}

/// Whether `name` can name an entry of a directory.
pub fn is_name(name: &str) -> (r: bool)
    ensures
        r == is_entry_name(name@),
{
    if name.unicode_len() == 0 || is_dots_str(name) {
        return false;
    }
    find_char(name, '/').is_none()
}

fn is_dots_str(component: &str) -> (r: bool)
    ensures
        r == is_dots(component@),
{
    let len = component.unicode_len();
    if len == 1 {
        component.get_char(0) == '.'
    } else if len == 2 {
        component.get_char(0) == '.' && component.get_char(1) == '.'
    } else {
        false
    }
}

/// Splits a relative path into its components.
pub fn split_path(path: &str) -> (r: Result<Vec<String>, Error>)
    ensures
        match r {
            Ok(components) => split_path_spec(path@) == Ok::<Seq<Seq<char>>, ErrorView>(
                strings_view(components@),
            ),
            Err(e) => split_path_spec(path@) == Err::<Seq<Seq<char>>, ErrorView>(e@),
        },
{
    let len = path.unicode_len();
    if len > 0 && path.get_char(0) == '/' {
        return Err(
            Error::new(
                ErrorKind::InvalidInput,
                "Path argument must be a relative path; provided absolute path",
            ),
        );
    }
    let mut done: Vec<String> = Vec::new();
    let mut normal = true;
    let mut start: usize = 0;
    let mut i: usize = 0;
    assert(path@.take(0) =~= Seq::<char>::empty());
    assert(strings_view(done@) =~= Seq::<Seq<char>>::empty());
    while i < len
        invariant
            start <= i <= len,
            len == path@.len(),
            scan_path(path@.take(i as int)) == (
                strings_view(done@),
                path@.subrange(start as int, i as int),
            ),
            normal == all_normal(strings_view(done@)),
        decreases len - i,
    {
        let c = path.get_char(i);
        proof {
            assert(path@.take(i + 1).drop_last() =~= path@.take(i as int));
            assert(path@.take(i + 1).last() == c);
        }
        if c == '/' {
            if start < i {
                let segment = path.substring_char(start, i);
                if is_dots_str(segment) {
                    normal = false;
                }
                let ghost before = strings_view(done@);
                done.push(String::from_str(segment));
                proof {
                    assert(strings_view(done@) =~= before.push(segment@));
                    lemma_all_normal_push(before, segment@);
                }
            }
            start = i + 1;
            assert(path@.subrange(start as int, i + 1) =~= Seq::<char>::empty());
        } else {
            assert(path@.subrange(start as int, i + 1) =~= path@.subrange(
                start as int,
                i as int,
            ).push(c));
        }
        i += 1;
    }
    assert(path@.take(len as int) =~= path@);
    if start < len {
        let segment = path.substring_char(start, len);
        if is_dots_str(segment) {
            normal = false;
        }
        let ghost before = strings_view(done@);
        done.push(String::from_str(segment));
        proof {
            assert(strings_view(done@) =~= before.push(segment@));
            lemma_all_normal_push(before, segment@);
        }
    }
    if !normal {
        Err(
            Error::new(
                ErrorKind::InvalidInput,
                "Path contains invalid components (e.g. \"..\"), must be a relative path",
            ),
        )
    } else if done.len() == 0 {
        Err(Error::new(ErrorKind::InvalidInput, "Path must not be empty"))
    } else {
        Ok(done)
    }
}

proof fn lemma_all_normal_push(done: Seq<Seq<char>>, segment: Seq<char>)
    ensures
        all_normal(done.push(segment)) == (all_normal(done) && !is_dots(segment)),
{
    let grown = done.push(segment);
    if all_normal(done) && !is_dots(segment) {
        assert forall|i: int| 0 <= i < grown.len() implies !is_dots(#[trigger] grown[i]) by {
            if i < done.len() {
                assert(grown[i] == done[i]);
            }
        }
    } else if !all_normal(done) {
        let i = choose|i: int| 0 <= i < done.len() && is_dots(#[trigger] done[i]);
        assert(grown[i] == done[i]);
    } else {
        assert(grown[done.len() as int] == segment);
    }
}

} // verus!
