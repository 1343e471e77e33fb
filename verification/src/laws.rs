//! The wire format round trip, stated and proved at two levels.
//!
//! Per line: every line the serializer writes for a directory or a file is
//! read back, at its own depth, as the same name, mode and size; the line
//! written for an unclassified entry is skipped.  The format is lossy by
//! design — a directory line carries no children of its own, since each
//! child arrives as its own line.
//!
//! Per stream: replaying the serialized lines of a well-formed tree never
//! aborts, and — for trees without a childless directory that a sibling
//! follows, and without a directory named like the root — hands every
//! entry to the reconciler with exactly its true ancestor chain.

use crate::entry::Entry;
use crate::entry::valid_name;
use crate::numeral::dec_str;
use crate::numeral::dec_value;
use crate::numeral::is_digit;
use crate::numeral::is_u32_string;
use crate::numeral::is_u64_string;
use crate::numeral::lemma_dec_str_digits;
use crate::numeral::lemma_dec_str_value;
use crate::parse::ParsedLine;
use crate::parse::dir_tag;
use crate::parse::field_end;
use crate::parse::fil_tag;
use crate::parse::indent_end;
use crate::parse::spec_indent;
use crate::parse::spec_parse;
use crate::parse::ukn_tag;
use crate::serialize::dir_line;
use crate::serialize::file_line;
use crate::serialize::spec_serialize;
use crate::serialize::spec_serialize_from;
use crate::serialize::unk_line;
use crate::tracker::pop_n;
use vstd::prelude::*;

verus! {

/// `n` tab characters: the indentation prefix of a line at depth `n`.
pub open spec fn tabs(n: nat) -> Seq<char>
    decreases n,
{
    if n == 0 {
        Seq::empty()
    } else {
        tabs((n - 1) as nat).push('\t')
    }
}

pub proof fn lemma_tabs(n: nat)
    ensures
        tabs(n).len() == n,
        forall|k: int| 0 <= k < n ==> tabs(n)[k] == '\t',
    decreases n,
{
    if n > 0 {
        lemma_tabs((n - 1) as nat);
    }
}

proof fn lemma_field_end_at(s: Seq<char>, i: int, e: int)
    requires
        0 <= i <= e <= s.len(),
        forall|k: int| i <= k < e ==> s[k] != '\t',
        e == s.len() || s[e] == '\t',
    ensures
        field_end(s, i) == e,
    decreases e - i,
{
    if i < e {
        lemma_field_end_at(s, i + 1, e);
    }
}

proof fn lemma_indent_at(s: Seq<char>, e: int)
    requires
        0 <= e <= s.len(),
        forall|k: int| 0 <= k < e ==> s[k] == '\t',
        e == s.len() || s[e] != '\t',
    ensures
        spec_indent(s) == e,
{
    lemma_indent_at_from(s, 0, e);
}

proof fn lemma_indent_at_from(s: Seq<char>, i: int, e: int)
    requires
        0 <= i <= e <= s.len(),
        forall|k: int| i <= k < e ==> s[k] == '\t',
        e == s.len() || s[e] != '\t',
    ensures
        indent_end(s, i) == e,
    decreases e - i,
{
    if i < e {
        lemma_indent_at_from(s, i + 1, e);
    }
}

/// No digit is a tab.
proof fn lemma_digits_not_tab(s: Seq<char>)
    requires
        crate::numeral::all_digits(s),
    ensures
        forall|k: int| 0 <= k < s.len() ==> s[k] != '\t',
{
    assert('\t' as u32 == 9);
    assert forall|k: int| 0 <= k < s.len() implies s[k] != '\t' by {
        assert(is_digit(s[k]));
    }
}

/// The line written for a file at depth `d` declares depth `d` and parses
/// back to the same name, mode and size.
pub proof fn lemma_file_line_parses(d: nat, name: Seq<char>, mode: u32, size: u64)
    requires
        valid_name(name),
    ensures
        spec_indent(file_line(tabs(d), name, mode, size)) == d,
        spec_parse(file_line(tabs(d), name, mode, size), d as int) == (ParsedLine::PFile {
            name,
            mode,
            size,
        }),
{
    lemma_tabs(d);
    lemma_dec_str_digits(mode as nat);
    lemma_dec_str_digits(size as nat);
    lemma_dec_str_value(mode as nat);
    lemma_dec_str_value(size as nat);
    let ms = dec_str(mode as nat);
    let ss = dec_str(size as nat);
    lemma_digits_not_tab(ms);
    lemma_digits_not_tab(ss);
    let line = file_line(tabs(d), name, mode, size);
    let t0 = d as int;
    let t1 = t0 + 3;
    let e1 = t1 + 1 + name.len();
    let e2 = e1 + 1 + ms.len();
    let e3 = e2 + 1 + ss.len();
    assert(line.len() == e3);
    assert(forall|k: int| 0 <= k < t0 ==> line[k] == '\t');
    assert(line[t0] == 'F' && line[t0 + 1] == 'I' && line[t0 + 2] == 'L');
    assert(line[t1] == '\t');
    assert(forall|k: int| t1 + 1 <= k < e1 ==> line[k] == name[k - (t1 + 1)]);
    assert(line[e1] == '\t');
    assert(forall|k: int| e1 + 1 <= k < e2 ==> line[k] == ms[k - (e1 + 1)]);
    assert(line[e2] == '\t');
    assert(forall|k: int| e2 + 1 <= k < e3 ==> line[k] == ss[k - (e2 + 1)]);
    lemma_indent_at(line, t0);
    lemma_field_end_at(line, t0, t1);
    assert(line.subrange(t0, t1) =~= fil_tag());
    assert(line.subrange(t0, t1) != dir_tag());
    lemma_field_end_at(line, t1 + 1, e1);
    assert(line.subrange(t1 + 1, e1) =~= name);
    lemma_field_end_at(line, e1 + 1, e2);
    assert(line.subrange(e1 + 1, e2) =~= ms);
    assert(is_u32_string(ms) && dec_value(ms) == mode);
    lemma_field_end_at(line, e2 + 1, e3);
    assert(line.subrange(e2 + 1, e3) =~= ss);
    assert(is_u64_string(ss) && dec_value(ss) == size);
}

/// The line written for a directory at depth `d` declares depth `d` and
/// parses back to the same name and mode (its children follow on their own
/// lines).
pub proof fn lemma_dir_line_parses(d: nat, name: Seq<char>, mode: u32)
    requires
        valid_name(name),
    ensures
        spec_indent(dir_line(tabs(d), name, mode)) == d,
        spec_parse(dir_line(tabs(d), name, mode), d as int) == (ParsedLine::PDir { name, mode }),
{
    lemma_tabs(d);
    lemma_dec_str_digits(mode as nat);
    lemma_dec_str_value(mode as nat);
    let ms = dec_str(mode as nat);
    lemma_digits_not_tab(ms);
    let line = dir_line(tabs(d), name, mode);
    let t0 = d as int;
    let t1 = t0 + 3;
    let e1 = t1 + 1 + name.len();
    let e2 = e1 + 1 + ms.len();
    assert(line.len() == e2);
    assert(forall|k: int| 0 <= k < t0 ==> line[k] == '\t');
    assert(line[t0] == 'D' && line[t0 + 1] == 'I' && line[t0 + 2] == 'R');
    assert(line[t1] == '\t');
    assert(forall|k: int| t1 + 1 <= k < e1 ==> line[k] == name[k - (t1 + 1)]);
    assert(line[e1] == '\t');
    assert(forall|k: int| e1 + 1 <= k < e2 ==> line[k] == ms[k - (e1 + 1)]);
    lemma_indent_at(line, t0);
    lemma_field_end_at(line, t0, t1);
    assert(line.subrange(t0, t1) =~= dir_tag());
    lemma_field_end_at(line, t1 + 1, e1);
    assert(line.subrange(t1 + 1, e1) =~= name);
    lemma_field_end_at(line, e1 + 1, e2);
    assert(line.subrange(e1 + 1, e2) =~= ms);
    assert(is_u32_string(ms) && dec_value(ms) == mode);
}

/// The line written for an unclassified entry is skipped on replay: its
/// `UNK` tag is not a tag the parser knows (the parser's unknown tag is
/// spelled `UKN`), so the line is reported as unrecognized and no action
/// is taken for it — whatever its description holds.
pub proof fn lemma_unknown_line_skipped(d: nat, desc: Seq<char>)
    ensures
        spec_indent(unk_line(tabs(d), desc)) == d,
        spec_parse(unk_line(tabs(d), desc), d as int) == ParsedLine::PUnrecognized,
{
    lemma_tabs(d);
    let line = unk_line(tabs(d), desc);
    let t0 = d as int;
    let t1 = t0 + 3;
    assert(line.len() == t1 + 1 + desc.len());
    assert(forall|k: int| 0 <= k < t0 ==> line[k] == '\t');
    assert(line[t0] == 'U' && line[t0 + 1] == 'N' && line[t0 + 2] == 'K');
    assert(line[t1] == '\t');
    lemma_indent_at(line, t0);
    lemma_field_end_at(line, t0, t1);
    let tag = line.subrange(t0, t1);
    assert(tag =~= seq!['U', 'N', 'K']);
    assert(tag[0] != dir_tag()[0] && tag != dir_tag());
    assert(tag[0] != fil_tag()[0] && tag != fil_tag());
    assert(tag[1] != ukn_tag()[1] && tag != ukn_tag());
}

/// The tracker's transition over unbounded integers, exactly as
/// `PathStackTracker::apply_line` ensures it: `None` where the replay
/// aborts, otherwise the state after the line.
pub struct ReplayState {
    pub depth: int,
    pub was_dir: bool,
    pub names: Seq<Seq<char>>,
}

pub open spec fn initial_replay_state() -> ReplayState {
    ReplayState { depth: 0, was_dir: false, names: Seq::empty() }
}

pub open spec fn replay_unwound(st: ReplayState, i: int) -> Seq<Seq<char>> {
    if i < st.depth {
        pop_n(st.names, st.depth - i)
    } else {
        st.names
    }
}

pub open spec fn replay_step(st: ReplayState, line: Seq<char>) -> Option<ReplayState> {
    let i = spec_indent(line);
    if !(i <= st.depth || (i == st.depth + 1 && st.was_dir)) {
        None
    } else {
        match spec_parse(line, i) {
            ParsedLine::PMissingField => None,
            ParsedLine::PBadNumber => None,
            ParsedLine::PUnknownTag => Some(
                ReplayState { depth: i, was_dir: false, names: replay_unwound(st, i) },
            ),
            ParsedLine::PUnrecognized => Some(
                ReplayState { depth: i, was_dir: false, names: replay_unwound(st, i) },
            ),
            ParsedLine::PDir { name, mode } => Some(
                ReplayState { depth: i, was_dir: true, names: replay_unwound(st, i).push(name) },
            ),
            ParsedLine::PFile { name, mode, size } => Some(
                ReplayState { depth: i, was_dir: false, names: replay_unwound(st, i) },
            ),
        }
    }
}

pub open spec fn replay_run(st: ReplayState, lines: Seq<Seq<char>>) -> Option<ReplayState>
    decreases lines.len(),
{
    if lines.len() == 0 {
        Some(st)
    } else {
        match replay_step(st, lines[0]) {
            None => None,
            Some(mid) => replay_run(mid, lines.drop_first()),
        }
    }
}

proof fn lemma_replay_run_append(st: ReplayState, a: Seq<Seq<char>>, b: Seq<Seq<char>>)
    ensures
        replay_run(st, a + b) == (match replay_run(st, a) {
            None => None,
            Some(mid) => replay_run(mid, b),
        }),
    decreases a.len(),
{
    if a.len() == 0 {
        assert(a + b =~~= b);
    } else {
        assert((a + b)[0] == a[0]);
        assert((a + b).len() > 0);
        assert((a + b).drop_first() =~~= a.drop_first() + b);
        match replay_step(st, a[0]) {
            None => {},
            Some(mid) => {
                lemma_replay_run_append(mid, a.drop_first(), b);
            },
        }
    }
}

/// A tree whose directory and file names are free of tabs and newlines, so
/// that each of its lines reads back as written.
pub open spec fn tree_wf(e: Entry) -> bool
    decreases e, 0int,
{
    match e {
        Entry::Unknown(_) => true,
        Entry::File(name, _, _) => valid_name(name@),
        Entry::Dir(name, _, children) => valid_name(name@) && forest_wf(children, 0),
    }
}

pub open spec fn forest_wf(children: Vec<Entry>, i: int) -> bool
    decreases children, children.len() - i,
{
    if i < 0 || i >= children.len() {
        true
    } else {
        tree_wf(children[i]) && forest_wf(children, i + 1)
    }
}

proof fn lemma_subtree_replay_total(e: Entry, d: nat, st: ReplayState)
    requires
        tree_wf(e),
        d <= st.depth + 1,
        d == st.depth + 1 ==> st.was_dir,
    ensures
        replay_run(st, spec_serialize(e, tabs(d))) matches Some(post) && post.depth >= d,
    decreases e, 0int,
{
    match e {
        Entry::Unknown(desc) => {
            lemma_unknown_line_skipped(d, desc@);
            let line = unk_line(tabs(d), desc@);
            assert(spec_serialize(e, tabs(d)) =~~= seq![line]);
            let st1 = ReplayState {
                depth: d as int,
                was_dir: false,
                names: replay_unwound(st, d as int),
            };
            assert(replay_step(st, line) == Some(st1));
            assert(seq![line].drop_first() =~~= Seq::<Seq<char>>::empty());
            assert(replay_run(st1, seq![line].drop_first()) == Some(st1));
            assert(replay_run(st, spec_serialize(e, tabs(d))) == Some(st1));
        },
        Entry::File(name, mode, size) => {
            lemma_file_line_parses(d, name@, mode, size);
            let line = file_line(tabs(d), name@, mode, size);
            assert(spec_serialize(e, tabs(d)) =~~= seq![line]);
            let st1 = ReplayState {
                depth: d as int,
                was_dir: false,
                names: replay_unwound(st, d as int),
            };
            assert(replay_step(st, line) == Some(st1));
            assert(seq![line].drop_first() =~~= Seq::<Seq<char>>::empty());
            assert(replay_run(st1, seq![line].drop_first()) == Some(st1));
            assert(replay_run(st, spec_serialize(e, tabs(d))) == Some(st1));
        },
        Entry::Dir(name, mode, children) => {
            lemma_dir_line_parses(d, name@, mode);
            let line = dir_line(tabs(d), name@, mode);
            let rest = spec_serialize_from(children, 0, tabs(d).push('\t'));
            assert(spec_serialize(e, tabs(d)) =~~= seq![line] + rest);
            assert(tabs(d).push('\t') =~= tabs(d + 1));
            assert(rest == spec_serialize_from(children, 0, tabs((d + 1) as nat)));
            let st1 = ReplayState {
                depth: d as int,
                was_dir: true,
                names: replay_unwound(st, d as int).push(name@),
            };
            assert(replay_step(st, line) == Some(st1));
            lemma_replay_run_append(st, seq![line], rest);
            assert(seq![line].drop_first() =~~= Seq::<Seq<char>>::empty());
            assert(replay_run(st1, seq![line].drop_first()) == Some(st1));
            assert(replay_run(st, seq![line]) == Some(st1));
            lemma_forest_replay_total(children, 0, (d + 1) as nat, st1);
            assert(replay_run(st, spec_serialize(e, tabs(d))) == replay_run(st1, rest));
        },
    }
}

proof fn lemma_forest_replay_total(children: Vec<Entry>, i: int, c: nat, st: ReplayState)
    requires
        forest_wf(children, i),
        c <= st.depth + 1,
        c == st.depth + 1 ==> st.was_dir,
    ensures
        replay_run(st, spec_serialize_from(children, i, tabs(c))) matches Some(post) && post.depth
            >= c - 1,
    decreases children, children.len() - i,
{
    if i < 0 || i >= children.len() {
        assert(spec_serialize_from(children, i, tabs(c)) =~~= Seq::<Seq<char>>::empty());
    } else {
        vstd::std_specs::vec::axiom_vec_index_decreases(children, i);
        let first = spec_serialize(children[i], tabs(c));
        let rest = spec_serialize_from(children, i + 1, tabs(c));
        assert(spec_serialize_from(children, i, tabs(c)) =~~= first + rest);
        lemma_subtree_replay_total(children[i], c, st);
        let mid = replay_run(st, first)->0;
        lemma_replay_run_append(st, first, rest);
        lemma_forest_replay_total(children, i + 1, c, mid);
    }
}

/// Replaying what the serializer wrote never aborts: every line of the
/// stream of a well-formed tree is admitted by the transition table and
/// parses, from the very state the replay starts in.
pub proof fn lemma_serialized_replay_never_aborts(e: Entry)
    requires
        tree_wf(e),
    ensures
        replay_run(initial_replay_state(), spec_serialize(e, Seq::empty())) is Some,
{
    assert(tabs(0) =~= Seq::<char>::empty());
    lemma_subtree_replay_total(e, 0, initial_replay_state());
}

/// One entry handed to reconciliation: the ancestor stack at that moment
/// and the parsed line.  For a file the stack is the chain of directory
/// names above it; for a directory the chain includes the directory
/// itself, exactly as the tracker pushes it before handing the entry out.
pub struct ApplyEvent {
    pub names: Seq<Seq<char>>,
    pub parsed: ParsedLine,
}

/// The reconciliation events one line contributes: none for a skipped
/// line or for a directory whose name equals the root of the stack.
pub open spec fn line_events(st: ReplayState, line: Seq<char>) -> Seq<ApplyEvent> {
    let i = spec_indent(line);
    match spec_parse(line, i) {
        ParsedLine::PDir { name, mode } => {
            let nm = replay_unwound(st, i).push(name);
            if nm[0] == name {
                Seq::empty()
            } else {
                seq![ApplyEvent { names: nm, parsed: spec_parse(line, i) }]
            }
        },
        ParsedLine::PFile { name, mode, size } => seq![
            ApplyEvent { names: replay_unwound(st, i), parsed: spec_parse(line, i) },
        ],
        _ => Seq::empty(),
    }
}

/// The replay of a whole stream: `None` where it aborts, otherwise the end
/// state and every reconciliation event in order.
pub open spec fn replay_trace(st: ReplayState, lines: Seq<Seq<char>>) -> Option<
    (ReplayState, Seq<ApplyEvent>),
>
    decreases lines.len(),
{
    if lines.len() == 0 {
        Some((st, Seq::empty()))
    } else {
        match replay_step(st, lines[0]) {
            None => None,
            Some(mid) => match replay_trace(mid, lines.drop_first()) {
                None => None,
                Some((post, evs)) => Some((post, line_events(st, lines[0]) + evs)),
            },
        }
    }
}

proof fn lemma_replay_trace_append(st: ReplayState, a: Seq<Seq<char>>, b: Seq<Seq<char>>)
    ensures
        replay_trace(st, a + b) == (match replay_trace(st, a) {
            None => None,
            Some((mid, evs_a)) => match replay_trace(mid, b) {
                None => None,
                Some((post, evs_b)) => Some((post, evs_a + evs_b)),
            },
        }),
    decreases a.len(),
{
    if a.len() == 0 {
        assert(a + b =~~= b);
        match replay_trace(st, b) {
            None => {},
            Some((post, evs_b)) => {
                assert(Seq::<ApplyEvent>::empty() + evs_b =~~= evs_b);
            },
        }
    } else {
        assert((a + b)[0] == a[0]);
        assert((a + b).len() > 0);
        assert((a + b).drop_first() =~~= a.drop_first() + b);
        match replay_step(st, a[0]) {
            None => {},
            Some(mid) => {
                lemma_replay_trace_append(mid, a.drop_first(), b);
                match replay_trace(mid, a.drop_first()) {
                    None => {},
                    Some((m2, evs_a)) => {
                        match replay_trace(m2, b) {
                            None => {},
                            Some((post, evs_b)) => {
                                assert(line_events(st, a[0]) + (evs_a + evs_b) =~~= (line_events(
                                    st,
                                    a[0],
                                ) + evs_a) + evs_b);
                            },
                        }
                    },
                }
            },
        }
    }
}

/// Removing `n + 1` names is removing `n`, then one more.
proof fn lemma_pop_n_peel(names: Seq<Seq<char>>, n: int)
    requires
        n >= 0,
    ensures
        pop_n(names, n + 1) == pop_n(pop_n(names, n), 1),
{
    if names.len() >= n + 1 {
        assert(pop_n(names, n + 1) =~~= pop_n(pop_n(names, n), 1));
    } else {
        assert(pop_n(names, n + 1) =~~= Seq::<Seq<char>>::empty());
        assert(pop_n(pop_n(names, n), 1) =~~= Seq::<Seq<char>>::empty());
    }
}

/// The ancestor chains the replay must recover: each file entry paired
/// with the chain above it, each directory entry with the chain including
/// itself, in stream order.
pub open spec fn expected_events(e: Entry, chain: Seq<Seq<char>>) -> Seq<ApplyEvent>
    decreases e, 0int,
{
    match e {
        Entry::Unknown(_) => Seq::empty(),
        Entry::File(name, mode, size) => seq![
            ApplyEvent { names: chain, parsed: ParsedLine::PFile { name: name@, mode, size } },
        ],
        Entry::Dir(name, mode, children) => seq![
            ApplyEvent {
                names: chain.push(name@),
                parsed: ParsedLine::PDir { name: name@, mode },
            },
        ] + expected_forest(children, 0, chain.push(name@)),
    }
}

pub open spec fn expected_forest(children: Vec<Entry>, i: int, chain: Seq<Seq<char>>) -> Seq<
    ApplyEvent,
>
    decreases children, children.len() - i,
{
    if i < 0 || i >= children.len() {
        Seq::empty()
    } else {
        expected_events(children[i], chain) + expected_forest(children, i + 1, chain)
    }
}

/// Every directory of the tree has at least one child.  The transition
/// table pops only on a decrease of indentation, so a childless directory
/// followed by a sibling leaves its name on the stack; under this
/// condition that cannot happen.
pub open spec fn dirs_nonempty(e: Entry) -> bool
    decreases e, 0int,
{
    match e {
        Entry::Dir(_, _, children) => children.len() > 0 && forest_dirs_nonempty(children, 0),
        _ => true,
    }
}

pub open spec fn forest_dirs_nonempty(children: Vec<Entry>, i: int) -> bool
    decreases children, children.len() - i,
{
    if i < 0 || i >= children.len() {
        true
    } else {
        dirs_nonempty(children[i]) && forest_dirs_nonempty(children, i + 1)
    }
}

/// No directory of the tree bears the name `r`.  A directory named like
/// the stack's root would be consumed as the root line is, not
/// reconciled.
pub open spec fn no_dir_named(e: Entry, r: Seq<char>) -> bool
    decreases e, 0int,
{
    match e {
        Entry::Dir(name, _, children) => name@ != r && forest_no_dir_named(children, 0, r),
        _ => true,
    }
}

pub open spec fn forest_no_dir_named(children: Vec<Entry>, i: int, r: Seq<char>) -> bool
    decreases children, children.len() - i,
{
    if i < 0 || i >= children.len() {
        true
    } else {
        no_dir_named(children[i], r) && forest_no_dir_named(children, i + 1, r)
    }
}

proof fn lemma_subtree_chains(e: Entry, d: nat, chain: Seq<Seq<char>>, st: ReplayState)
    requires
        tree_wf(e),
        dirs_nonempty(e),
        chain.len() >= 1,
        no_dir_named(e, chain[0]),
        d >= 1,
        d <= st.depth + 1,
        d == st.depth + 1 ==> st.was_dir,
        replay_unwound(st, d as int) == chain,
    ensures
        replay_trace(st, spec_serialize(e, tabs(d))) matches Some((post, evs)) && {
            &&& evs == expected_events(e, chain)
            &&& post.depth >= d
            &&& replay_unwound(post, d as int) == chain
        },
    decreases e, 0int,
{
    match e {
        Entry::Unknown(desc) => {
            lemma_unknown_line_skipped(d, desc@);
            let line = unk_line(tabs(d), desc@);
            assert(spec_serialize(e, tabs(d)) =~~= seq![line]);
            let st1 = ReplayState { depth: d as int, was_dir: false, names: chain };
            assert(replay_unwound(st, d as int) == chain);
            assert(replay_step(st, line) == Some(st1));
            assert(seq![line].drop_first() =~~= Seq::<Seq<char>>::empty());
            assert(replay_trace(st1, seq![line].drop_first()) == Some(
                (st1, Seq::<ApplyEvent>::empty()),
            ));
            assert(line_events(st, line) + Seq::<ApplyEvent>::empty() =~~= expected_events(
                e,
                chain,
            ));
            assert(replay_trace(st, spec_serialize(e, tabs(d))) == Some(
                (st1, expected_events(e, chain)),
            ));
        },
        Entry::File(name, mode, size) => {
            lemma_file_line_parses(d, name@, mode, size);
            let line = file_line(tabs(d), name@, mode, size);
            assert(spec_serialize(e, tabs(d)) =~~= seq![line]);
            let st1 = ReplayState { depth: d as int, was_dir: false, names: chain };
            assert(replay_step(st, line) == Some(st1));
            assert(seq![line].drop_first() =~~= Seq::<Seq<char>>::empty());
            assert(replay_trace(st1, seq![line].drop_first()) == Some(
                (st1, Seq::<ApplyEvent>::empty()),
            ));
            assert(line_events(st, line) + Seq::<ApplyEvent>::empty() =~~= expected_events(
                e,
                chain,
            ));
            assert(replay_trace(st, spec_serialize(e, tabs(d))) == Some(
                (st1, expected_events(e, chain)),
            ));
        },
        Entry::Dir(name, mode, children) => {
            lemma_dir_line_parses(d, name@, mode);
            let line = dir_line(tabs(d), name@, mode);
            let rest = spec_serialize_from(children, 0, tabs(d).push('\t'));
            assert(spec_serialize(e, tabs(d)) =~~= seq![line] + rest);
            assert(tabs(d).push('\t') =~= tabs(d + 1));
            assert(rest == spec_serialize_from(children, 0, tabs((d + 1) as nat)));
            let chain1 = chain.push(name@);
            let st1 = ReplayState { depth: d as int, was_dir: true, names: chain1 };
            assert(replay_step(st, line) == Some(st1));
            assert(chain1[0] == chain[0]);
            assert(line_events(st, line) =~~= seq![
                ApplyEvent { names: chain1, parsed: ParsedLine::PDir { name: name@, mode } },
            ]);
            assert(seq![line].drop_first() =~~= Seq::<Seq<char>>::empty());
            assert(replay_trace(st1, seq![line].drop_first()) == Some(
                (st1, Seq::<ApplyEvent>::empty()),
            ));
            assert(line_events(st, line) + Seq::<ApplyEvent>::empty() =~~= line_events(st, line));
            assert(replay_trace(st, seq![line]) == Some((st1, line_events(st, line))));
            assert(replay_unwound(st1, d + 1 as int) == chain1);
            lemma_forest_chains(children, 0, (d + 1) as nat, chain1, st1);
            lemma_replay_trace_append(st, seq![line], rest);
            match replay_trace(st1, rest) {
                None => {
                    assert(false);
                },
                Some((post, evs2)) => {
                    assert(evs2 == expected_forest(children, 0, chain1));
                    assert(line_events(st, line) + evs2 =~~= expected_events(e, chain));
                    assert(post.depth >= d + 1);
                    let a = post.depth - (d + 1);
                    assert(replay_unwound(post, d + 1 as int) == chain1);
                    assert(pop_n(post.names, a) == chain1);
                    lemma_pop_n_peel(post.names, a);
                    assert(pop_n(chain1, 1) =~~= chain);
                    assert(replay_unwound(post, d as int) == chain);
                },
            }
        },
    }
}

proof fn lemma_forest_chains(
    children: Vec<Entry>,
    i: int,
    c: nat,
    chain: Seq<Seq<char>>,
    st: ReplayState,
)
    requires
        forest_wf(children, i),
        forest_dirs_nonempty(children, i),
        chain.len() >= 1,
        forest_no_dir_named(children, i, chain[0]),
        c >= 1,
        c <= st.depth + 1,
        c == st.depth + 1 ==> st.was_dir,
        replay_unwound(st, c as int) == chain,
    ensures
        replay_trace(st, spec_serialize_from(children, i, tabs(c))) matches Some((post, evs)) && {
            &&& evs == expected_forest(children, i, chain)
            &&& post.depth >= c - 1
            &&& (0 <= i < children.len() ==> post.depth >= c)
            &&& replay_unwound(post, c as int) == chain
        },
    decreases children, children.len() - i,
{
    if i < 0 || i >= children.len() {
        assert(spec_serialize_from(children, i, tabs(c)) =~~= Seq::<Seq<char>>::empty());
    } else {
        vstd::std_specs::vec::axiom_vec_index_decreases(children, i);
        let first = spec_serialize(children[i], tabs(c));
        let rest = spec_serialize_from(children, i + 1, tabs(c));
        assert(spec_serialize_from(children, i, tabs(c)) =~~= first + rest);
        lemma_subtree_chains(children[i], c, chain, st);
        lemma_replay_trace_append(st, first, rest);
        match replay_trace(st, first) {
            None => {
                assert(false);
            },
            Some((mid, evs1)) => {
                lemma_forest_chains(children, i + 1, c, chain, mid);
                match replay_trace(mid, rest) {
                    None => {
                        assert(false);
                    },
                    Some((post, evs2)) => {
                        assert(evs1 + evs2 =~~= expected_forest(children, i, chain));
                        if i + 1 >= children.len() {
                            assert(rest =~~= Seq::<Seq<char>>::empty());
                            assert(post == mid);
                            assert(post.depth >= c);
                        }
                    },
                }
            },
        }
    }
}

/// The core of the round trip: replaying the serialized stream of a
/// well-formed tree hands every directory and file entry to the
/// reconciler with exactly its true ancestor chain, in stream order, and
/// consumes the root line purely to seed the stack.  Two shapes are left
/// out, and behave otherwise: a childless directory followed by a sibling
/// (the table pops only on a decrease of indentation, so its name stays
/// on the stack), and a directory named like the root (it is consumed as
/// the root line is).
#[verifier::rlimit(50)]
pub proof fn lemma_replay_recovers_ancestors(root: Entry)
    requires
        root matches Entry::Dir(name, mode, children) && {
            &&& tree_wf(root)
            &&& forest_dirs_nonempty(children, 0)
            &&& forest_no_dir_named(children, 0, name@)
        },
    ensures
        replay_trace(initial_replay_state(), spec_serialize(root, Seq::empty())) matches Some(
            (post, evs),
        ) && evs == expected_forest(root->Dir_2, 0, seq![root.spec_name()]),
{
    let name = root->Dir_0;
    let mode = root->Dir_1;
    let children = root->Dir_2;
    assert(tabs(0) =~= Seq::<char>::empty());
    lemma_dir_line_parses(0, name@, mode);
    let st = initial_replay_state();
    let line = dir_line(tabs(0), name@, mode);
    let rest = spec_serialize_from(children, 0, tabs(0).push('\t'));
    assert(spec_serialize(root, Seq::empty()) == spec_serialize(root, tabs(0)));
    assert(spec_serialize(root, tabs(0)) =~~= seq![line] + rest);
    assert(tabs(0).push('\t') =~= tabs(1));
    assert(rest == spec_serialize_from(children, 0, tabs(1)));
    let chain1 = seq![name@];
    assert(replay_unwound(st, 0) == st.names);
    assert(st.names.push(name@) =~~= chain1);
    let st1 = ReplayState { depth: 0, was_dir: true, names: chain1 };
    assert(replay_step(st, line) == Some(st1));
    assert(chain1[0] == name@);
    assert(line_events(st, line) =~~= Seq::<ApplyEvent>::empty());
    assert(seq![line].drop_first() =~~= Seq::<Seq<char>>::empty());
    assert(replay_trace(st1, seq![line].drop_first()) == Some(
        (st1, Seq::<ApplyEvent>::empty()),
    ));
    assert(replay_trace(st, seq![line]) == Some((st1, Seq::<ApplyEvent>::empty())));
    assert(replay_unwound(st1, 1) == chain1);
    lemma_forest_chains(children, 0, 1, chain1, st1);
    lemma_replay_trace_append(st, seq![line], rest);
    match replay_trace(st1, rest) {
        None => {
            assert(false);
        },
        Some((post, evs2)) => {
            assert(Seq::<ApplyEvent>::empty() + evs2 =~~= evs2);
        },
    }
}

} // verus!
