//! The reconciler's decision: given a recorded entry and what the
//! destination currently holds, the one filesystem action that makes the
//! destination match, plus the path arithmetic both sides share.
//!
//! Only size is compared for file content (no hashing), and a mode is set
//! only when nothing else is copied; an entry whose destination metadata
//! cannot be read is reported and the replay goes on.

use crate::entry::Entry;
use crate::serialize::views_of;
use vstd::prelude::*;
use vstd::string::StringExecFns;

verus! {

/// What is known of the destination path before acting.
#[derive(Debug, PartialEq, Eq, Clone, Copy)]
pub enum DstState {
    /// Nothing exists at the destination path.
    Missing,
    /// The destination exists with these permission bits and (for a file)
    /// this size.
    Present { mode: u32, size: u64 },
    /// The destination exists but its metadata could not be read.
    MetaFailed,
}

/// The at-most-one filesystem action an entry needs.
#[derive(Debug, PartialEq, Eq, Clone, Copy)]
pub enum Action {
    /// Create the directory with the recorded mode.
    CreateDir { mode: u32 },
    /// Set the permission bits to the recorded mode; nothing is copied.
    SetMode { mode: u32 },
    /// Copy the file's bytes from the source tree (create or overwrite).
    CopyFile,
    /// The destination already matches the record.
    NoOp,
    /// Report the metadata failure and continue with the next line.
    ReportMetaError,
}

/// The decision table of the reconciler, exactly as the replay applies it.
pub open spec fn spec_decide(e: Entry, dst: DstState) -> Action {
    match e {
        Entry::Dir(_, mode, _) => match dst {
            DstState::Missing => Action::CreateDir { mode },
            DstState::Present { mode: dmode, size: _ } => if dmode != mode {
                Action::SetMode { mode }
            } else {
                Action::NoOp
            },
            DstState::MetaFailed => Action::ReportMetaError,
        },
        Entry::File(_, mode, size) => match dst {
            DstState::Missing => Action::CopyFile,
            DstState::Present { mode: dmode, size: dsize } => if dsize != size {
                Action::CopyFile
            } else if dmode != mode {
                Action::SetMode { mode }
            } else {
                Action::NoOp
            },
            DstState::MetaFailed => Action::ReportMetaError,
        },
        Entry::Unknown(_) => Action::NoOp,
    }
}

/// Decides the action for one entry: create a missing directory, copy a
/// missing or size-changed file, set a differing mode, or nothing.
pub fn decide_action(e: &Entry, dst: &DstState) -> (a: Action)
    ensures
        a == spec_decide(*e, *dst),
{
    match e {
        Entry::Dir(_, mode, _) => match dst {
            DstState::Missing => Action::CreateDir { mode: *mode },
            DstState::Present { mode: dmode, size: _ } => {
                if *dmode != *mode {
                    Action::SetMode { mode: *mode }
                } else {
                    Action::NoOp
                }
            },
            DstState::MetaFailed => Action::ReportMetaError,
        },
        Entry::File(_, mode, size) => match dst {
            DstState::Missing => Action::CopyFile,
            DstState::Present { mode: dmode, size: dsize } => {
                if *dsize != *size {
                    Action::CopyFile
                } else if *dmode != *mode {
                    Action::SetMode { mode: *mode }
                } else {
                    Action::NoOp
                }
            },
            DstState::MetaFailed => Action::ReportMetaError,
        },
        Entry::Unknown(_) => Action::NoOp,
    }
}

/// Replaying a stream a second time is a no-op: once the destination holds
/// the recorded mode (and, for a file, the recorded size), the decision for
/// that entry is to do nothing.
pub proof fn lemma_replay_idempotent(e: Entry)
    requires
        e.spec_is_dir() || e.spec_is_file(),
    ensures
        spec_decide(e, DstState::Present { mode: e.spec_mode(), size: e.spec_size() })
            == Action::NoOp,
{
}

/// A destination file of the right size but the wrong mode gets its mode
/// set and nothing copied.
pub proof fn lemma_mode_only_update(e: Entry, dmode: u32)
    requires
        e.spec_is_file(),
        dmode != e.spec_mode(),
    ensures
        spec_decide(e, DstState::Present { mode: dmode, size: e.spec_size() })
            == (Action::SetMode { mode: e.spec_mode() }),
{
}

/// A destination file of the wrong size is re-copied, whatever its mode.
pub proof fn lemma_size_mismatch_recopy(e: Entry, dmode: u32, dsize: u64)
    requires
        e.spec_is_file(),
        dsize != e.spec_size(),
    ensures
        spec_decide(e, DstState::Present { mode: dmode, size: dsize }) == Action::CopyFile,
{
}

/// Path segments joined by `/`, the layout both roots share.
pub open spec fn spec_join(parts: Seq<Seq<char>>) -> Seq<char>
    decreases parts.len(),
{
    if parts.len() == 0 {
        Seq::empty()
    } else if parts.len() == 1 {
        parts[0]
    } else {
        spec_join(parts.drop_last()) + seq!['/'] + parts.last()
    }
}

/// The destination's segments: the destination root replaces the source
/// root; every other ancestor is kept.
pub open spec fn dst_parts(dst_root: Seq<char>, names: Seq<Seq<char>>) -> Seq<Seq<char>> {
    seq![dst_root] + names.skip(1)
}

#[verifier::loop_isolation(false)]
pub fn join_path(parts: &Vec<String>) -> (p: String)
    ensures
        p@ == spec_join(views_of(parts@)),
{
    proof {
        reveal_strlit("/");
    }
    let mut acc = String::new();
    let mut i: usize = 0;
    while i < parts.len()
        invariant
            0 <= i <= parts.len(),
            acc@ == spec_join(views_of(parts@).take(i as int)),
        decreases parts.len() - i,
    {
        if i > 0 {
            acc.append("/");
        }
        acc.append(parts[i].as_str());
        proof {
            let vs = views_of(parts@);
            assert(vs.take(i + 1).drop_last() =~~= vs.take(i as int));
            assert(vs.take(i + 1).last() == vs[i as int]);
            if i == 0 {
                assert(acc@ =~= spec_join(vs.take(1)));
            } else {
                assert(acc@ =~= spec_join(vs.take(i as int)) + seq!['/'] + vs[i as int]);
            }
        }
        i += 1;
    }
    proof {
        assert(views_of(parts@).take(parts@.len() as int) =~~= views_of(parts@));
    }
    acc
}

/// The source path of a directory entry: its ancestor chain joined (the
/// directory's own name is already the top of the chain).
pub fn source_dir_path(ancestors: &Vec<String>) -> (p: String)
    ensures
        p@ == spec_join(views_of(ancestors@)),
{
    join_path(ancestors)
}

/// The source path of a file entry: the ancestor chain, then the filename.
pub fn source_file_path(ancestors: &Vec<String>, filename: &String) -> (p: String)
    requires
        ancestors@.len() >= 1,
    ensures
        p@ == spec_join(views_of(ancestors@).push(filename@)),
{
    proof {
        reveal_strlit("/");
    }
    let mut p = join_path(ancestors);
    p.append("/");
    p.append(filename.as_str());
    proof {
        let vs = views_of(ancestors@);
        assert(vs.push(filename@).drop_last() =~~= vs);
        assert(p@ =~= spec_join(vs.push(filename@)));
    }
    p
}

/// The destination path of a directory entry: the destination root, then
/// every ancestor below the source root.
#[verifier::loop_isolation(false)]
pub fn dest_dir_path(dst_root: &String, ancestors: &Vec<String>) -> (p: String)
    requires
        ancestors@.len() >= 1,
    ensures
        p@ == spec_join(dst_parts(dst_root@, views_of(ancestors@))),
{
    let mut parts: Vec<String> = Vec::new();
    parts.push(dst_root.clone());
    proof {
        assert(views_of(parts@) =~~= seq![dst_root@] + views_of(ancestors@).subrange(1, 1));
    }
    let mut i: usize = 1;
    while i < ancestors.len()
        invariant
            1 <= i <= ancestors.len(),
            views_of(parts@) == seq![dst_root@] + views_of(ancestors@).subrange(1, i as int),
        decreases ancestors.len() - i,
    {
        let ghost before = views_of(parts@);
        parts.push(ancestors[i].clone());
        proof {
            assert(views_of(parts@) =~~= before.push(ancestors@[i as int]@));
            assert(views_of(parts@) =~~= seq![dst_root@] + views_of(ancestors@).subrange(
                1,
                i + 1,
            ));
        }
        i += 1;
    }
    proof {
        assert(views_of(parts@) =~~= dst_parts(dst_root@, views_of(ancestors@)));
    }
    join_path(&parts)
}

/// The destination path of a file entry.
pub fn dest_file_path(dst_root: &String, ancestors: &Vec<String>, filename: &String) -> (p: String)
    requires
        ancestors@.len() >= 1,
    ensures
        p@ == spec_join(dst_parts(dst_root@, views_of(ancestors@)).push(filename@)),
{
    proof {
        reveal_strlit("/");
    }
    let mut p = dest_dir_path(dst_root, ancestors);
    p.append("/");
    p.append(filename.as_str());
    proof {
        let vs = dst_parts(dst_root@, views_of(ancestors@));
        assert(vs.push(filename@).drop_last() =~~= vs);
        assert(p@ =~= spec_join(vs.push(filename@)));
    }
    p
}

/// Splitting a joined path at its first segment: everything after the
/// first segment and its separator is the join of the remaining segments.
pub proof fn lemma_join_strip_root(parts: Seq<Seq<char>>)
    requires
        parts.len() >= 2,
    ensures
        spec_join(parts) == parts[0] + seq!['/'] + spec_join(parts.drop_first()),
        spec_join(parts).skip(parts[0].len() + 1 as int) == spec_join(parts.drop_first()),
    decreases parts.len(),
{
    if parts.len() == 2 {
        assert(parts.drop_last() =~~= seq![parts[0]]);
        assert(parts.drop_first() =~~= seq![parts[1]]);
        assert(spec_join(parts) =~= parts[0] + seq!['/'] + spec_join(parts.drop_first()));
    } else {
        let dl = parts.drop_last();
        lemma_join_strip_root(dl);
        let pdf = parts.drop_first();
        assert(pdf.drop_last() =~~= dl.drop_first());
        assert(pdf.last() == parts.last());
        assert(spec_join(parts) =~= parts[0] + seq!['/'] + spec_join(pdf));
    }
    assert(spec_join(parts).skip(parts[0].len() + 1 as int) =~= spec_join(parts.drop_first()));
}

/// The structural invariant the reconciler rests on: after stripping each
/// root prefix and its separator, the source and destination paths agree
/// letter for letter.
pub proof fn lemma_path_suffixes_agree(names: Seq<Seq<char>>, dst_root: Seq<char>)
    requires
        names.len() >= 2,
    ensures
        spec_join(names).skip(names[0].len() + 1 as int) == spec_join(
            dst_parts(dst_root, names),
        ).skip(dst_root.len() + 1 as int),
{
    lemma_join_strip_root(names);
    let dp = dst_parts(dst_root, names);
    assert(dp.len() == names.len());
    assert(dp[0] == dst_root);
    assert(dp.drop_first() =~~= names.drop_first());
    lemma_join_strip_root(dp);
}

} // verus!
