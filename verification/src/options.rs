//! The modes in which a file can be opened.

use vstd::prelude::*;
use vstd::string::*;

verus! {

/// What a write-only open does to the bytes already in the file.
#[derive(Clone, Copy, Debug, PartialEq, Eq)]
pub enum ExtraMode {
    /// The file is emptied first.
    Truncate,
    /// Writes go to the end of the file.
    Append,
}

/// Options for opening files. Exactly one mode is active in each value.
#[derive(Clone, Copy, Debug, PartialEq, Eq)]
pub enum OpenOptions {
    ReadOnly,
    WriteOnly { extra: Option<ExtraMode> },
    ReadWrite {
        // There is no appending read-write mode.
        truncate: bool,
    },
}

/// The mode string that the document provider reads: one of `r`, `w`, `wt`,
/// `wa`, `rw` and `rwt`.
pub open spec fn mode_of(options: OpenOptions) -> Seq<char> {
    match options {
        OpenOptions::ReadOnly => "r"@,
        OpenOptions::WriteOnly { extra: None } => "w"@,
        OpenOptions::WriteOnly { extra: Some(ExtraMode::Truncate) } => "wt"@,
        OpenOptions::WriteOnly { extra: Some(ExtraMode::Append) } => "wa"@,
        OpenOptions::ReadWrite { truncate: true } => "rwt"@,
        OpenOptions::ReadWrite { truncate: false } => "rw"@,
    }
}

impl OpenOptions {
    /// Shortcut to get [`Self::WriteOnly`] without extra options.
    pub fn write() -> (options: Self)
        ensures
            options == (OpenOptions::WriteOnly { extra: None }),
    {
        Self::WriteOnly { extra: None }
    }

    /// Shortcut to get [`Self::ReadWrite`] without extra options.
    pub fn read_write() -> (options: Self)
        ensures
            options == (OpenOptions::ReadWrite { truncate: false }),
    {
        Self::ReadWrite { truncate: false }
    }

    /// Whether the file can be read through a handle opened with these options.
    pub fn reads(&self) -> (r: bool)
        ensures
            r == !(self is WriteOnly),
    {
        match self {
            OpenOptions::WriteOnly { .. } => false,
            _ => true,
        }
    }

    /// Whether the file can be written through a handle opened with these options.
    pub fn writes(&self) -> (r: bool)
        ensures
            r == !(self is ReadOnly),
    {
        match self {
            OpenOptions::ReadOnly => false,
            _ => true,
        }
    }

    /// The mode string for these options.
    pub fn as_str(&self) -> (mode: &'static str)
        ensures
            mode@ == mode_of(*self),
    {
        match self {
            OpenOptions::ReadOnly => "r",
            OpenOptions::WriteOnly { extra: None } => "w",
            OpenOptions::WriteOnly { extra: Some(ExtraMode::Truncate) } => "wt",
            OpenOptions::WriteOnly { extra: Some(ExtraMode::Append) } => "wa",
            OpenOptions::ReadWrite { truncate: true } => "rwt",
            OpenOptions::ReadWrite { truncate: false } => "rw",
        }
    }

    /// The mode string for these options, owned.
    pub fn to_string(&self) -> (mode: String)
        ensures
            mode@ == mode_of(*self),
    {
        String::from_str(self.as_str())
    }
}

impl Default for OpenOptions {
    /// Default mode is [`Self::ReadOnly`].
    fn default() -> (options: Self)
        ensures
            options == OpenOptions::ReadOnly,
    {
        Self::ReadOnly
    }
}

/// The six mode strings are pairwise different, so a mode string names one
/// value of [`OpenOptions`].
pub proof fn lemma_mode_names_options(a: OpenOptions, b: OpenOptions)
    requires
        mode_of(a) == mode_of(b),
    ensures
        a == b,
{
    reveal_strlit("r");
    reveal_strlit("w");
    reveal_strlit("wt");
    reveal_strlit("wa");
    reveal_strlit("rw");
    reveal_strlit("rwt");
    let ma = mode_of(a);
    let mb = mode_of(b);
    assert(ma.len() == mb.len());
    if ma.len() == 1 {
        assert(ma[0] == mb[0]);
    } else if ma.len() == 2 {
        assert(ma[0] == mb[0]);
        assert(ma[1] == mb[1]);
    }
}

} // verus!
