//! The replay side's core: reconstructing each entry's ancestor chain from
//! indentation deltas alone.
//!
//! The tracker holds the indentation of the previously processed line,
//! whether that line was a directory, and the stack of directory names from
//! the declared root down to the current position.  A line at the same
//! indentation is a sibling; one tab deeper is a child and demands that the
//! previous line was a directory; shallower unwinds the stack by the
//! difference; deeper than one extra tab contradicts any tree shape and
//! stops the replay.

use crate::entry::Entry;
use crate::parse::LineIssue;
use crate::parse::ParsedLine;
use crate::parse::entry_matches;
use crate::parse::measure_indent;
use crate::parse::parse_line;
use crate::parse::spec_indent;
use crate::parse::spec_parse;
use vstd::prelude::*;

verus! {

/// Why a replay must stop: the indentation contradicts the tree shape, or a
/// `DIR`/`FIL` line is malformed.
#[derive(Debug, PartialEq, Eq, Clone, Copy)]
pub enum StepError {
    IndentJump,
    ChildOfNonDir,
    MissingField,
    BadNumber,
}

/// Why a line produces no action without stopping the replay.
#[derive(Debug, PartialEq, Eq, Clone, Copy)]
pub enum SkipReason {
    UnknownTag,
    UnrecognizedTag,
    RootEntry,
}

/// What one line of the stream amounts to.
#[derive(Debug, PartialEq)]
pub enum StepOutcome {
    /// Stop the whole replay: the stream is structurally corrupt.
    Fatal(StepError),
    /// No action for this line; the replay goes on.
    Skip(SkipReason),
    /// Reconcile this entry, whose ancestor chain is now on the stack.
    Apply(Entry),
}

/// `names` with its last `n` elements removed.
pub open spec fn pop_n(names: Seq<Seq<char>>, n: int) -> Seq<Seq<char>> {
    if names.len() >= n {
        names.take(names.len() - n)
    } else {
        Seq::empty()
    }
}

pub struct PathStackTracker {
    /// Indentation of the previously processed line.
    pub current_depth: usize,
    /// Whether the previously processed line was a directory.
    pub was_prev_dir: bool,
    /// Directory names from the declared root down to the current parent.
    pub ancestors: Vec<String>,
}

impl PathStackTracker {
    /// The stack as a sequence of name views, root first.
    pub open spec fn names(&self) -> Seq<Seq<char>> {
        self.ancestors@.map_values(|s: String| s@)
    }

    /// The stack after unwinding to a line indented by `i`.
    pub open spec fn spec_popped(&self, i: int) -> Seq<Seq<char>> {
        if i < self.current_depth {
            pop_n(self.names(), self.current_depth - i)
        } else {
            self.names()
        }
    }

    /// An indentation the transition table admits after this state.
    pub open spec fn admits(&self, i: int) -> bool {
        i <= self.current_depth || (i == self.current_depth + 1 && self.was_prev_dir)
    }

    /// The state after a line at indentation `i` that pushed no directory:
    /// the stack is unwound, the depth recorded, and the line was no
    /// directory.
    pub open spec fn stepped_flat(&self, post: PathStackTracker, i: int) -> bool {
        &&& post.names() == self.spec_popped(i)
        &&& post.current_depth == i
        &&& !post.was_prev_dir
    }

    /// The state after a directory line at indentation `i`: the unwound
    /// stack with the directory's name pushed on top.
    pub open spec fn stepped_dir(&self, post: PathStackTracker, i: int, name: Seq<char>) -> bool {
        &&& post.names() == self.spec_popped(i).push(name)
        &&& post.current_depth == i
        &&& post.was_prev_dir
    }

    pub fn new() -> (t: PathStackTracker)
        ensures
            t.current_depth == 0,
            !t.was_prev_dir,
            t.names() == Seq::<Seq<char>>::empty(),
    {
        let t = PathStackTracker { current_depth: 0, was_prev_dir: false, ancestors: Vec::new() };
        proof {
            assert(t.names() =~~= Seq::<Seq<char>>::empty());
        }
        t
    }

    /// Pops one stack element per level of ascent; popping past the bottom
    /// leaves the stack empty.
    fn unwind(&mut self, indent: usize)
        ensures
            final(self).names() == old(self).spec_popped(indent as int),
            final(self).current_depth == old(self).current_depth,
            final(self).was_prev_dir == old(self).was_prev_dir,
    {
        let depth = self.current_depth;
        if indent >= depth {
            return ;
        }
        let total = depth - indent;
        let mut j: usize = 0;
        while j < total
            invariant
                0 <= j <= total,
                self.current_depth == old(self).current_depth,
                self.was_prev_dir == old(self).was_prev_dir,
                self.names() == pop_n(old(self).names(), j as int),
            decreases total - j,
        {
            if self.ancestors.len() > 0 {
                let ghost before = self.names();
                let _ = self.ancestors.pop();
                proof {
                    assert(self.names() =~~= before.drop_last());
                    assert(self.names() =~~= pop_n(old(self).names(), j + 1));
                }
            } else {
                proof {
                    assert(self.names() =~~= pop_n(old(self).names(), j + 1));
                }
            }
            j += 1;
        }
        proof {
            assert(self.names() =~~= old(self).spec_popped(indent as int));
        }
    }

    /// Processes one line of the stream: checks its indentation against the
    /// transition table, unwinds the stack on ascent, parses the record,
    /// pushes a directory's name, and says what the line amounts to.  The
    /// entry handed back for reconciliation is never the root: a directory
    /// line whose name equals the root of the stack only seeds the stack,
    /// since the destination root is supplied externally.  A fatal outcome
    /// leaves the tracker untouched; a skipped line still advances the
    /// tracked depth, exactly as an entry with no action would.
    pub fn apply_line(&mut self, line: &str) -> (r: StepOutcome)
        ensures
            ({
                let i = spec_indent(line@);
                let d = old(self).current_depth as int;
                let p = spec_parse(line@, i);
                let popped = old(self).spec_popped(i);
                let pre = *old(self);
                let post = *final(self);
                &&& (i > d + 1 ==> r == StepOutcome::Fatal(StepError::IndentJump) && post == pre)
                &&& (i == d + 1 && !pre.was_prev_dir ==> r == StepOutcome::Fatal(
                    StepError::ChildOfNonDir,
                ) && post == pre)
                &&& (pre.admits(i) ==> match p {
                    ParsedLine::PMissingField => r == StepOutcome::Fatal(StepError::MissingField)
                        && post == pre,
                    ParsedLine::PBadNumber => r == StepOutcome::Fatal(StepError::BadNumber) && post
                        == pre,
                    ParsedLine::PUnknownTag => r == StepOutcome::Skip(SkipReason::UnknownTag)
                        && pre.stepped_flat(post, i),
                    ParsedLine::PUnrecognized => r == StepOutcome::Skip(SkipReason::UnrecognizedTag)
                        && pre.stepped_flat(post, i),
                    ParsedLine::PDir { name, mode } => {
                        &&& pre.stepped_dir(post, i, name)
                        &&& (popped.len() == 0 || popped[0] == name ==> r == StepOutcome::Skip(
                            SkipReason::RootEntry,
                        ))
                        &&& (!(popped.len() == 0 || popped[0] == name) ==> ({
                            &&& r matches StepOutcome::Apply(e)
                            &&& entry_matches(e, p)
                        }))
                    },
                    ParsedLine::PFile { name, mode, size } => {
                        &&& pre.stepped_flat(post, i)
                        &&& r matches StepOutcome::Apply(e)
                        &&& entry_matches(e, p)
                    },
                })
            }),
    {
        let indent = measure_indent(line);
        let depth = self.current_depth;
        if indent > depth {
            if indent - depth > 1 {
                return StepOutcome::Fatal(StepError::IndentJump);
            }
            if !self.was_prev_dir {
                return StepOutcome::Fatal(StepError::ChildOfNonDir);
            }
        }
        let parsed = match parse_line(line, indent) {
            Ok(e) => e,
            Err(iss) => {
                if iss.is_fatal() {
                    return if matches!(iss, LineIssue::MissingField) {
                        StepOutcome::Fatal(StepError::MissingField)
                    } else {
                        StepOutcome::Fatal(StepError::BadNumber)
                    };
                }
                self.unwind(indent);
                self.was_prev_dir = false;
                self.current_depth = indent;
                return if matches!(iss, LineIssue::UnknownTag) {
                    StepOutcome::Skip(SkipReason::UnknownTag)
                } else {
                    StepOutcome::Skip(SkipReason::UnrecognizedTag)
                };
            },
        };
        self.unwind(indent);
        let entry_is_dir = parsed.is_dir();
        if entry_is_dir {
            let ghost popped_names = self.names();
            let name = parsed.filename();
            self.ancestors.push(name);
            proof {
                assert(self.names() =~~= popped_names.push(parsed.spec_name()));
            }
            self.was_prev_dir = true;
        } else {
            self.was_prev_dir = false;
        }
        self.current_depth = indent;
        if entry_is_dir {
            let fname = parsed.filename();
            if self.ancestors[0] == fname {
                return StepOutcome::Skip(SkipReason::RootEntry);
            }
        }
        StepOutcome::Apply(parsed)
    }
}

} // verus!
