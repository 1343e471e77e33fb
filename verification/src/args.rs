//! Selecting the run mode from the command line.
//!
//! One argument naming a directory selects collect mode; two arguments, a
//! regular file (the recorded stream) and an existing directory, select
//! replay mode; anything else is refused.  The caller pairs each argument
//! with what the filesystem reports the path to be.

use vstd::prelude::*;

verus! {

/// What the filesystem reports a path to be.
#[derive(Debug, PartialEq, Eq, Clone, Copy)]
pub enum PathKind {
    DirPath,
    FilePath,
    OtherPath,
}

/// Decides the run mode: `Ok((src, None))` for collect, `Ok((src,
/// Some(dst)))` for replay, `Err(())` for any other argument shape.
pub fn process_args(arg_src: Option<(String, PathKind)>, arg_dst: Option<(String, PathKind)>) -> (r:
    Result<(String, Option<String>), ()>)
    ensures
        match (arg_src, arg_dst) {
            (Some((s, sk)), Some((d, dk))) => {
                if sk == PathKind::FilePath && dk == PathKind::DirPath {
                    r == Ok::<(String, Option<String>), ()>((s, Some(d)))
                } else {
                    r == Err::<(String, Option<String>), ()>(())
                }
            },
            (Some((s, sk)), None) => {
                if sk == PathKind::DirPath {
                    r == Ok::<(String, Option<String>), ()>((s, None))
                } else {
                    r == Err::<(String, Option<String>), ()>(())
                }
            },
            (None, _) => r == Err::<(String, Option<String>), ()>(()),
        },
{
    match arg_dst {
        Some((d, dk)) => match arg_src {
            Some((s, sk)) => {
                if matches!(sk, PathKind::FilePath) && matches!(dk, PathKind::DirPath) {
                    Ok((s, Some(d)))
                } else {
                    Err(())
                }
            },
            None => Err(()),
        },
        None => match arg_src {
            Some((s, sk)) => {
                if matches!(sk, PathKind::DirPath) {
                    Ok((s, None))
                } else {
                    Err(())
                }
            },
            None => Err(()),
        },
    }
}

} // verus!
