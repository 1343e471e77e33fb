//! The data model: one node of a scanned directory tree.

use vstd::prelude::*;

verus! {

/// A name may appear in the wire format only if it contains no tab (the
/// field separator) and no newline (the record separator).
pub open spec fn valid_name(s: Seq<char>) -> bool {
    forall|i: int| 0 <= i < s.len() ==> s[i] != '\t' && s[i] != '\n'
}

/// One node of a scanned tree: a directory with its ordered children, a
/// regular file with its size, or anything the scanner could not classify.
/// `Unknown` carries only a description and is never replayed.
#[derive(Debug, PartialEq)]
pub enum Entry {
    Unknown(String),
    Dir(String, u32, Vec<Entry>),
    File(String, u32, u64),
}

impl Entry {
    pub open spec fn spec_is_dir(&self) -> bool {
        match self {
            Entry::Dir(_, _, _) => true,
            _ => false,
        }
    }

    pub open spec fn spec_is_file(&self) -> bool {
        match self {
            Entry::File(_, _, _) => true,
            _ => false,
        }
    }

    /// The name field of any variant; for `Unknown` this is its description,
    /// which stands in for a filename exactly as recorded.
    pub open spec fn spec_name(&self) -> Seq<char> {
        match self {
            Entry::Dir(name, _, _) => name@,
            Entry::File(name, _, _) => name@,
            Entry::Unknown(name) => name@,
        }
    }

    /// The permission bits of a directory or file; 0 for `Unknown`.
    pub open spec fn spec_mode(&self) -> u32 {
        match self {
            Entry::Dir(_, mode, _) => *mode,
            Entry::File(_, mode, _) => *mode,
            Entry::Unknown(_) => 0,
        }
    }

    /// The recorded size of a file; 0 for the other variants.
    pub open spec fn spec_size(&self) -> u64 {
        match self {
            Entry::File(_, _, size) => *size,
            _ => 0,
        }
    }

    pub open spec fn spec_children(&self) -> Seq<Entry> {
        match self {
            Entry::Dir(_, _, children) => children@,
            _ => Seq::empty(),
        }
    }

    pub fn is_dir(&self) -> (r: bool)
        ensures
            r == self.spec_is_dir(),
    {
        match self {
            Entry::Dir(_, _, _) => true,
            _ => false,
        }
    }

    pub fn filename(&self) -> (r: String)
        ensures
            r@ == self.spec_name(),
    {
        match self {
            Entry::Dir(filename, _, _) => filename.clone(),
            Entry::File(filename, _, _) => filename.clone(),
            Entry::Unknown(filename) => filename.clone(),
        }
    }
}

} // verus!
