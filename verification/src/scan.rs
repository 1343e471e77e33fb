//! The collect side's decisions: classifying one scanned child from plain
//! observations, and the recursion bound.
//!
//! The walk itself — listing a directory, reading metadata — happens
//! outside the library; every observation arrives here as a plain value,
//! and every failure degrades to an `Unknown` entry rather than aborting
//! the scan.

use crate::entry::Entry;
use vstd::prelude::*;
use vstd::string::StringExecFns;

verus! {

/// Directories nested deeper than this are recorded with no children
/// rather than descended into.
pub const MAX_SCAN_DEPTH: usize = 20;

/// What the metadata of one directory child reports.
#[derive(Debug, PartialEq, Eq, Clone, Copy)]
pub enum ChildKind {
    /// A directory with these permission bits.
    DirKind { mode: u32 },
    /// A regular file with these permission bits and this size.
    FileKind { mode: u32, size: u64 },
    /// Neither a directory nor a regular file (a symlink, for one).
    OtherKind,
}

/// Whether the scanner may descend into a directory found at `depth`.
/// Beyond the bound the directory is still recorded, with empty children.
pub fn should_descend(depth: usize) -> (r: bool)
    ensures
        r == (depth < MAX_SCAN_DEPTH),
{
    depth < MAX_SCAN_DEPTH
}

/// Builds the entry for one scanned child: a directory keeps exactly the
/// children collected below it (empty when the depth bound stopped the
/// descent or the listing failed), a file keeps its mode and size, and
/// anything else — or metadata that could not be read — becomes `Unknown`
/// with a description naming the child.
pub fn classify_child(name: String, kind: Option<ChildKind>, children: Vec<Entry>) -> (e: Entry)
    ensures
        match kind {
            Some(ChildKind::DirKind { mode }) => e.spec_is_dir() && e.spec_name() == name@
                && e.spec_mode() == mode && e.spec_children() == children@,
            Some(ChildKind::FileKind { mode, size }) => e.spec_is_file() && e.spec_name() == name@
                && e.spec_mode() == mode && e.spec_size() == size,
            Some(ChildKind::OtherKind) => e matches Entry::Unknown(d) && d@ == "Symlink?: "@
                + name@,
            None => e matches Entry::Unknown(d) && d@ == "Unrequestable metadata: "@ + name@,
        },
{
    match kind {
        Some(ChildKind::DirKind { mode }) => Entry::Dir(name, mode, children),
        Some(ChildKind::FileKind { mode, size }) => Entry::File(name, mode, size),
        Some(ChildKind::OtherKind) => {
            let mut d = String::from_str("Symlink?: ");
            d.append(name.as_str());
            Entry::Unknown(d)
        },
        None => {
            let mut d = String::from_str("Unrequestable metadata: ");
            d.append(name.as_str());
            Entry::Unknown(d)
        },
    }
}

} // verus!
