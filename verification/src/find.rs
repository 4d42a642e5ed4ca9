//! Filtering the entries of a directory walk by their type and name.

use crate::pattern::{any_match, matches_any};
use crate::text::chars_of;
use vstd::prelude::*;

verus! {

/// A type of entry that may be asked for.
#[derive(Debug, Clone, Copy, PartialEq, Eq, Structural)]
pub enum EntryType {
    Dir,
    File,
    Link,
}

/// What the walk says an entry is.
#[derive(Debug, Clone, Copy, PartialEq, Eq, Structural)]
pub struct EntryKind {
    pub is_dir: bool,
    pub is_file: bool,
    pub is_symlink: bool,
}

/// The type that a letter asks for: `d` a directory, `f` a file, `l` a
/// link.
pub open spec fn entry_type_of(name: Seq<char>) -> Option<EntryType> {
    if name == seq!['d'] {
        Some(EntryType::Dir)
    } else if name == seq!['f'] {
        Some(EntryType::File)
    } else if name == seq!['l'] {
        Some(EntryType::Link)
    } else {
        None
    }
}

impl EntryType {
    /// Reads the letter of a type.
    pub fn from_name(name: &str) -> (r: Option<EntryType>)
        ensures
            r == entry_type_of(name@),
    {
        let chars = chars_of(name);
        if chars.len() != 1 {
            return None;
        }
        let c = chars[0];
        assert(chars@ =~= seq![c]);
        if c == 'd' {
            Some(EntryType::Dir)
        } else if c == 'f' {
            Some(EntryType::File)
        } else if c == 'l' {
            Some(EntryType::Link)
        } else {
            None
        }
    }

    /// Whether an entry is of this type.
    pub open spec fn admits(self, kind: EntryKind) -> bool {
        match self {
            EntryType::Link => kind.is_symlink,
            EntryType::Dir => kind.is_dir,
            EntryType::File => kind.is_file,
        }
    }
}

/// An entry passes the type filter when no type was asked for, or when it
/// is of one of the types asked for.
pub open spec fn type_passes(entry_types: Seq<EntryType>, kind: EntryKind) -> bool {
    entry_types.len() == 0 || exists|i: int|
        0 <= i < entry_types.len() && (#[trigger] entry_types[i]).admits(kind)
}

/// An entry passes the name filter when no pattern was given, or when one
/// of the patterns has a match in its name.
pub open spec fn name_passes(names: Seq<regex::Regex>, file_name: Seq<char>) -> bool {
    names.len() == 0 || any_match(names, file_name)
}

/// Whether an entry passes the type filter.
pub fn type_filter(entry_types: &[EntryType], kind: &EntryKind) -> (b: bool)
    ensures
        b == type_passes(entry_types@, *kind),
{
    if entry_types.len() == 0 {
        return true;
    }
    let mut i: usize = 0;
    while i < entry_types.len()
        invariant
            i <= entry_types.len(),
            forall|j: int| 0 <= j < i ==> !(#[trigger] entry_types@[j]).admits(*kind),
        decreases entry_types.len() - i,
    {
        let admitted = match entry_types[i] {
            EntryType::Link => kind.is_symlink,
            EntryType::Dir => kind.is_dir,
            EntryType::File => kind.is_file,
        };
        if admitted {
            return true;
        }
        i += 1;
    }
    false
}

/// Whether an entry passes the name filter.
pub fn name_filter(names: &[regex::Regex], file_name: &str) -> (b: bool)
    ensures
        b == name_passes(names@, file_name@),
{
    names.len() == 0 || matches_any(names, file_name)
}

/// Whether an entry is listed: it passes both filters.
pub fn keep_entry(
    entry_types: &[EntryType],
    names: &[regex::Regex],
    kind: &EntryKind,
    file_name: &str,
) -> (b: bool)
    ensures
        b == (type_passes(entry_types@, *kind) && name_passes(names@, file_name@)),
{
    type_filter(entry_types, kind) && name_filter(names, file_name)
}

} // verus!
