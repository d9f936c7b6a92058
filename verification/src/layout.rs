//! The fixed layout of a synchronised directory: its canonical
//! subdirectories and the characters that a file name may not hold.

use vstd::prelude::*;
use vstd::string::*;
use crate::names::strings_view;
use crate::plan::{contains_name, names_absent_from};

verus! {

/// The name of the directory, below both roots, that takes calendar files.
pub const SUFFIX_DIR: &'static str = "calendars";

/// The names of the directories where synced data is stored.
pub open spec fn canonical_directories() -> Seq<Seq<char>> {
    seq!["calendars"@, "contacts"@]
}

/// Whether `c` may not stand in a file name.
pub open spec fn is_illegal_character(c: char) -> bool {
    c == '/' || c == '*' || c == ':'
}

/// Whether a name holds a character that may not stand in a file name.
pub open spec fn has_illegal_character(name: Seq<char>) -> bool {
    exists|i: int| 0 <= i < name.len() && is_illegal_character(#[trigger] name[i])
}

/// The names of the directories where synced data is stored.
pub fn directories() -> (names: Vec<String>)
    ensures
        strings_view(names@) == canonical_directories(),
{
    let mut names: Vec<String> = Vec::new();
    names.push(String::from_str("calendars"));
    names.push(String::from_str("contacts"));
    assert(strings_view(names@) =~= canonical_directories());
    names
}

/// The canonical directories that are not among `entries`, the names of the
/// entries of a root: those that have to be created.
pub fn missing_directories(entries: &Vec<String>) -> (missing: Vec<String>)
    ensures
        strings_view(missing@) == names_absent_from(
            canonical_directories(),
            strings_view(entries@),
        ),
{
    let all = directories();
    let ghost wanted = canonical_directories();
    let ghost listed = strings_view(entries@);
    let mut missing: Vec<String> = Vec::new();
    let mut i: usize = 0;
    proof {
        reveal(Seq::filter);
        assert(wanted.take(0) =~= Seq::<Seq<char>>::empty());
        assert(strings_view(missing@) =~= Seq::<Seq<char>>::empty());
    }
    while i < all.len()
        invariant
            i <= all.len(),
            wanted == strings_view(all@),
            listed == strings_view(entries@),
            strings_view(missing@) == names_absent_from(wanted.take(i as int), listed),
        decreases all.len() - i,
    {
        proof {
            reveal(Seq::filter);
            assert(wanted.take(i + 1).drop_last() =~= wanted.take(i as int));
            assert(wanted.take(i + 1).last() == all@[i as int]@);
        }
        if !contains_name(entries, &all[i]) {
            let ghost before = strings_view(missing@);
            missing.push(all[i].clone());
            assert(strings_view(missing@) =~= before.push(all@[i as int]@));
        }
        i += 1;
    }
    assert(wanted.take(i as int) =~= wanted);
    missing
}

/// Whether a file name holds one of the characters `/`, `*` and `:`, which
/// no file name may hold.
pub fn is_illegal_file_name(name: &str) -> (r: bool)
    ensures
        r == has_illegal_character(name@),
{
    let len = name.unicode_len();
    let mut i: usize = 0;
    while i < len
        invariant
            i <= len,
            len == name@.len(),
            forall|j: int| 0 <= j < i ==> !is_illegal_character(#[trigger] name@[j]),
        decreases len - i,
    {
        let c = name.get_char(i);
        if c == '/' || c == '*' || c == ':' {
            return true;
        }
        i += 1;
    }
    false
}

} // verus!
