//! The collect side's renderer: an `Entry` tree as tab-indented lines.
//!
//! One line per entry, fields tab-separated; children stand under their
//! directory with one more leading tab.  The format records presence, kind,
//! name, mode and size, and nothing else.

use crate::entry::Entry;
use crate::numeral::dec_str;
use crate::parse::dir_tag;
use crate::parse::fil_tag;
use vstd::prelude::*;
use vstd::string::StringExecFns;

verus! {

/// The line of a directory entry under the indentation prefix `ind`.
pub open spec fn dir_line(ind: Seq<char>, name: Seq<char>, mode: u32) -> Seq<char> {
    ind + dir_tag() + seq!['\t'] + name + seq!['\t'] + dec_str(mode as nat)
}

/// The line of a file entry under the indentation prefix `ind`.
pub open spec fn file_line(ind: Seq<char>, name: Seq<char>, mode: u32, size: u64) -> Seq<char> {
    ind + fil_tag() + seq!['\t'] + name + seq!['\t'] + dec_str(mode as nat) + seq!['\t'] + dec_str(
        size as nat,
    )
}

/// The line of an unclassified entry.  Note the tag: the scanner writes
/// `UNK`, which the parser does not know; such lines are skipped as
/// unrecognized on replay, never reconciled.
pub open spec fn unk_line(ind: Seq<char>, desc: Seq<char>) -> Seq<char> {
    ind + seq!['U', 'N', 'K', '\t'] + desc
}

/// All lines of an entry: its own line, then its children's lines under one
/// more tab of indentation, in their recorded order.
pub open spec fn spec_serialize(e: Entry, ind: Seq<char>) -> Seq<Seq<char>>
    decreases e, 0int,
{
    match e {
        Entry::Unknown(desc) => seq![unk_line(ind, desc@)],
        Entry::File(name, mode, size) => seq![file_line(ind, name@, mode, size)],
        Entry::Dir(name, mode, children) => seq![dir_line(ind, name@, mode)]
            + spec_serialize_from(children, 0, ind.push('\t')),
    }
}

/// The lines of the children from index `i` on.
pub open spec fn spec_serialize_from(children: Vec<Entry>, i: int, ind: Seq<char>) -> Seq<
    Seq<char>,
>
    decreases children, children.len() - i,
{
    if i < 0 || i >= children.len() {
        Seq::empty()
    } else {
        spec_serialize(children[i], ind) + spec_serialize_from(children, i + 1, ind)
    }
}

pub open spec fn views_of(lines: Seq<String>) -> Seq<Seq<char>> {
    lines.map_values(|l: String| l@)
}

#[verifier::loop_isolation(false)]
fn serialize_into(e: &Entry, ind: &String, out: &mut Vec<String>)
    ensures
        views_of(final(out)@) == views_of(old(out)@) + spec_serialize(*e, ind@),
    decreases *e,
{
    proof {
        reveal_strlit("DIR\t");
        reveal_strlit("FIL\t");
        reveal_strlit("UNK\t");
        reveal_strlit("\t");
    }
    match e {
        Entry::Unknown(desc) => {
            let mut line = ind.clone();
            line.append("UNK\t");
            line.append(desc.as_str());
            proof {
                assert(line@ =~= unk_line(ind@, desc@));
            }
            out.push(line);
            proof {
                assert(views_of(out@) =~~= views_of(old(out)@) + spec_serialize(*e, ind@));
            }
        },
        Entry::File(name, mode, size) => {
            let mut line = ind.clone();
            line.append("FIL\t");
            line.append(name.as_str());
            line.append("\t");
            let mode_str = crate::numeral::u32_to_string(*mode);
            line.append(mode_str.as_str());
            line.append("\t");
            let size_str = crate::numeral::u64_to_string(*size);
            line.append(size_str.as_str());
            proof {
                assert(line@ =~= file_line(ind@, name@, *mode, *size));
            }
            out.push(line);
            proof {
                assert(views_of(out@) =~~= views_of(old(out)@) + spec_serialize(*e, ind@));
            }
        },
        Entry::Dir(name, mode, children) => {
            let mut line = ind.clone();
            line.append("DIR\t");
            line.append(name.as_str());
            line.append("\t");
            let mode_str = crate::numeral::u32_to_string(*mode);
            line.append(mode_str.as_str());
            proof {
                assert(line@ =~= dir_line(ind@, name@, *mode));
            }
            out.push(line);
            let mut child_ind = ind.clone();
            child_ind.append("\t");
            proof {
                assert(child_ind@ =~= ind@.push('\t'));
                assert(views_of(out@) + spec_serialize_from(*children, 0, child_ind@)
                    =~~= views_of(old(out)@) + spec_serialize(*e, ind@));
            }
            let mut i: usize = 0;
            while i < children.len()
                invariant
                    0 <= i <= children.len(),
                    child_ind@ == ind@.push('\t'),
                    views_of(out@) + spec_serialize_from(*children, i as int, child_ind@)
                        == views_of(old(out)@) + spec_serialize(*e, ind@),
                decreases children.len() - i,
            {
                proof {
                    vstd::std_specs::vec::axiom_vec_index_decreases(*children, i as int);
                    assert((*e)->Dir_2 == *children);
                    assert(decreases_to!(*e => *children));
                    assert(decreases_to!(*children => children[i as int]));
                }
                serialize_into(&children[i], &child_ind, out);
                proof {
                    assert(views_of(out@) + spec_serialize_from(*children, i + 1, child_ind@)
                        =~~= views_of(old(out)@) + spec_serialize(*e, ind@));
                }
                i += 1;
            }
            proof {
                assert(views_of(out@) =~~= views_of(out@) + spec_serialize_from(
                    *children,
                    i as int,
                    child_ind@,
                ));
            }
        },
    }
}

/// Renders the whole tree, the root entry itself on the first line with no
/// indentation.
pub fn serialize_tree(root: &Entry) -> (lines: Vec<String>)
    ensures
        views_of(lines@) == spec_serialize(*root, Seq::empty()),
{
    let mut out: Vec<String> = Vec::new();
    let ind = String::new();
    serialize_into(root, &ind, &mut out);
    proof {
        assert(views_of(out@) =~~= spec_serialize(*root, Seq::empty()));
    }
    out
}

} // verus!
