//! Entries of a directory as the merge sees them: a name and a kind.

use vstd::prelude::*;
use vstd::string::*;
use crate::dir::{ExternalDirEntry, RowView};
use crate::names::strings_view;

verus! {

/// One of the two directories of a merge. By convention `A` is the local
/// directory and `B` the directory in the document tree.
#[derive(Clone, Copy, Debug, PartialEq, Eq, Structural)]
pub enum Side {
    A,
    B,
}

impl Side {
    /// The other directory.
    pub fn other(self) -> (side: Side)
        ensures
            side != self,
    {
        match self {
            Side::A => Side::B,
            Side::B => Side::A,
        }
    }
}

/// Whether an entry is a file or a directory.
#[derive(Clone, Copy, Debug, PartialEq, Eq, Structural)]
pub enum EntryKind {
    File,
    Directory,
}

/// A child of a directory: a snapshot taken when the directory was listed.
#[derive(Debug)]
pub struct Entry {
    pub name: String,
    pub kind: EntryKind,
}

/// The mathematical value of an [`Entry`].
pub struct EntryView {
    pub name: Seq<char>,
    pub kind: EntryKind,
}

impl View for Entry {
    type V = EntryView;

    open spec fn view(&self) -> EntryView {
        EntryView { name: self.name@, kind: self.kind }
    }
}

/// The views of a sequence of entries.
pub open spec fn listing_view(entries: Seq<Entry>) -> Seq<EntryView> {
    entries.map_values(|entry: Entry| entry@)
}

/// The name and kind of a row of the document provider.
pub open spec fn entry_of_row(row: RowView) -> EntryView {
    EntryView {
        name: row.file_name(),
        kind: if row.is_dir() {
            EntryKind::Directory
        } else {
            EntryKind::File
        },
    }
}

/// The names of the files among the entries, in order.
pub open spec fn file_names(entries: Seq<EntryView>) -> Seq<Seq<char>>
    decreases entries.len(),
{
    if entries.len() == 0 {
        Seq::empty()
    } else {
        let before = file_names(entries.drop_last());
        if entries.last().kind == EntryKind::File {
            before.push(entries.last().name)
        } else {
            before
        }
    }
}

impl Entry {
    /// A file entry.
    pub fn file(name: &str) -> (entry: Entry)
        ensures
            entry@ == (EntryView { name: name@, kind: EntryKind::File }),
    {
        Entry { name: String::from_str(name), kind: EntryKind::File }
    }

    /// A directory entry.
    pub fn directory(name: &str) -> (entry: Entry)
        ensures
            entry@ == (EntryView { name: name@, kind: EntryKind::Directory }),
    {
        Entry { name: String::from_str(name), kind: EntryKind::Directory }
    }

    /// Whether the entry is a file.
    pub fn is_file(&self) -> (r: bool)
        ensures
            r == (self@.kind == EntryKind::File),
    {
        match self.kind {
            EntryKind::File => true,
            EntryKind::Directory => false,
        }
    }
}

impl ExternalDirEntry {
    /// The name and kind of this entry.
    pub fn entry(&self) -> (entry: Entry)
        ensures
            entry@ == entry_of_row(self@),
    {
        Entry {
            name: String::from_str(self.file_name()),
            kind: if self.is_dir() {
                EntryKind::Directory
            } else {
                EntryKind::File
            },
        }
    }
}

/// The names of the files among `entries`, in listing order.
pub fn files_of(entries: &Vec<Entry>) -> (names: Vec<String>)
    ensures
        strings_view(names@) == file_names(listing_view(entries@)),
{
    let ghost all = listing_view(entries@);
    let mut names: Vec<String> = Vec::new();
    let mut i: usize = 0;
    assert(all.take(0) =~= Seq::<EntryView>::empty());
    assert(strings_view(names@) =~= Seq::<Seq<char>>::empty());
    while i < entries.len()
        invariant
            i <= entries.len(),
            all == listing_view(entries@),
            strings_view(names@) == file_names(all.take(i as int)),
        decreases entries.len() - i,
    {
        proof {
            assert(all.take(i + 1).drop_last() =~= all.take(i as int));
            assert(all.take(i + 1).last() == entries@[i as int]@);
        }
        if entries[i].is_file() {
            let ghost before = strings_view(names@);
            names.push(entries[i].name.clone());
            assert(strings_view(names@) =~= before.push(entries@[i as int]@.name));
        }
        i += 1;
    }
    assert(all.take(i as int) =~= all);
    names
}

} // verus!
