//! The replay side's line decoder: measuring indentation and parsing one
//! record of the wire format into an `Entry`.
//!
//! A record is `<indent>KIND<TAB>fields...` where `<indent>` is a run of tab
//! characters and `KIND` is a three-letter tag.  `DIR` carries a name and a
//! mode, `FIL` a name, a mode and a size.  A `UKN` tag and any unrecognized
//! tag are reported so the caller can skip the line; a `DIR`/`FIL` line with
//! a missing field or an unparsable number is reported as fatal, since the
//! stream is then structurally corrupt.

use crate::entry::Entry;
use crate::numeral::dec_value;
use crate::numeral::is_u32_string;
use crate::numeral::is_u64_string;
use crate::numeral::parse_u32;
use crate::numeral::parse_u64;
use vstd::prelude::*;
use vstd::string::StrSliceExecFns;

verus! {

/// First position at or after `i` holding a tab, or the end of `s`.
pub open spec fn field_end(s: Seq<char>, i: int) -> int
    decreases s.len() - i,
{
    if i < 0 || i >= s.len() {
        s.len() as int
    } else if s[i] == '\t' {
        i
    } else {
        field_end(s, i + 1)
    }
}

/// Number of leading tab characters: the declared depth of the line.
pub open spec fn indent_end(s: Seq<char>, i: int) -> int
    decreases s.len() - i,
{
    if i < 0 || i >= s.len() {
        s.len() as int
    } else if s[i] != '\t' {
        i
    } else {
        indent_end(s, i + 1)
    }
}

pub open spec fn spec_indent(s: Seq<char>) -> int {
    indent_end(s, 0)
}

pub fn measure_indent(line: &str) -> (n: usize)
    ensures
        n == spec_indent(line@),
        n <= line@.len(),
{
    let len = line.unicode_len();
    let mut j: usize = 0;
    while j < len
        invariant
            0 <= j <= len,
            len == line@.len(),
            spec_indent(line@) == indent_end(line@, j as int),
        decreases len - j,
    {
        let c = line.get_char(j);
        if c != '\t' {
            return j;
        }
        j += 1;
    }
    j
}

fn scan_field_end(s: &str, start: usize) -> (e: usize)
    requires
        start <= s@.len(),
    ensures
        e == field_end(s@, start as int),
        start <= e <= s@.len(),
{
    let len = s.unicode_len();
    let mut j: usize = start;
    while j < len
        invariant
            start <= j <= len,
            len == s@.len(),
            field_end(s@, start as int) == field_end(s@, j as int),
        decreases len - j,
    {
        let c = s.get_char(j);
        if c == '\t' {
            return j;
        }
        j += 1;
    }
    j
}

pub open spec fn dir_tag() -> Seq<char> {
    seq!['D', 'I', 'R']
}

pub open spec fn fil_tag() -> Seq<char> {
    seq!['F', 'I', 'L']
}

pub open spec fn ukn_tag() -> Seq<char> {
    seq!['U', 'K', 'N']
}

/// What one line denotes, before any tree context is applied.
pub enum ParsedLine {
    PDir { name: Seq<char>, mode: u32 },
    PFile { name: Seq<char>, mode: u32, size: u64 },
    PUnknownTag,
    PUnrecognized,
    PMissingField,
    PBadNumber,
}

/// The meaning of the record starting at position `start` of `line`
/// (everything before `start` is the indentation, already measured).
/// Fields are the maximal tab-free runs; a field "exists" exactly when the
/// previous field ends at a tab.
pub open spec fn spec_parse(line: Seq<char>, start: int) -> ParsedLine {
    let e0 = field_end(line, start);
    let tag = line.subrange(start, e0);
    if tag == dir_tag() {
        if e0 >= line.len() {
            ParsedLine::PMissingField
        } else {
            let e1 = field_end(line, e0 + 1);
            let name = line.subrange(e0 + 1, e1);
            if e1 >= line.len() {
                ParsedLine::PMissingField
            } else {
                let e2 = field_end(line, e1 + 1);
                let mode_s = line.subrange(e1 + 1, e2);
                if is_u32_string(mode_s) {
                    ParsedLine::PDir { name, mode: dec_value(mode_s) as u32 }
                } else {
                    ParsedLine::PBadNumber
                }
            }
        }
    } else if tag == fil_tag() {
        if e0 >= line.len() {
            ParsedLine::PMissingField
        } else {
            let e1 = field_end(line, e0 + 1);
            let name = line.subrange(e0 + 1, e1);
            if e1 >= line.len() {
                ParsedLine::PMissingField
            } else {
                let e2 = field_end(line, e1 + 1);
                let mode_s = line.subrange(e1 + 1, e2);
                if !is_u32_string(mode_s) {
                    ParsedLine::PBadNumber
                } else if e2 >= line.len() {
                    ParsedLine::PMissingField
                } else {
                    let e3 = field_end(line, e2 + 1);
                    let size_s = line.subrange(e2 + 1, e3);
                    if is_u64_string(size_s) {
                        ParsedLine::PFile {
                            name,
                            mode: dec_value(mode_s) as u32,
                            size: dec_value(size_s) as u64,
                        }
                    } else {
                        ParsedLine::PBadNumber
                    }
                }
            }
        }
    } else if tag == ukn_tag() {
        ParsedLine::PUnknownTag
    } else {
        ParsedLine::PUnrecognized
    }
}

/// Why a line yielded no entry.  The first two ask the caller to skip the
/// line; the last two poison the whole stream.
#[derive(Debug, PartialEq, Eq, Clone, Copy)]
pub enum LineIssue {
    UnknownTag,
    UnrecognizedTag,
    MissingField,
    BadNumber,
}

impl LineIssue {
    pub open spec fn spec_is_fatal(&self) -> bool {
        match self {
            LineIssue::MissingField => true,
            LineIssue::BadNumber => true,
            _ => false,
        }
    }

    pub fn is_fatal(&self) -> (r: bool)
        ensures
            r == self.spec_is_fatal(),
    {
        match self {
            LineIssue::MissingField => true,
            LineIssue::BadNumber => true,
            _ => false,
        }
    }
}

pub open spec fn issue_spec(iss: LineIssue) -> ParsedLine {
    match iss {
        LineIssue::UnknownTag => ParsedLine::PUnknownTag,
        LineIssue::UnrecognizedTag => ParsedLine::PUnrecognized,
        LineIssue::MissingField => ParsedLine::PMissingField,
        LineIssue::BadNumber => ParsedLine::PBadNumber,
    }
}

/// The entry an `Ok` result must carry for a given line meaning: same name,
/// same mode, same size, and no children yet for a directory.
pub open spec fn entry_matches(e: Entry, p: ParsedLine) -> bool {
    match p {
        ParsedLine::PDir { name, mode } => e.spec_is_dir() && e.spec_name() == name
            && e.spec_mode() == mode && e.spec_children().len() == 0,
        ParsedLine::PFile { name, mode, size } => e.spec_is_file() && e.spec_name() == name
            && e.spec_mode() == mode && e.spec_size() == size,
        _ => false,
    }
}

fn tag_matches(tag: &str, lit: &str) -> (r: bool)
    ensures
        r == (tag@ == lit@),
{
    let a = tag.to_owned();
    let b = lit.to_owned();
    a == b
}

/// Decodes the record that starts at `start`; returns the entry it denotes,
/// or the reason there is none, exactly as `spec_parse` says.
pub fn parse_line(line: &str, start: usize) -> (r: Result<Entry, LineIssue>)
    requires
        start <= line@.len(),
    ensures
        match r {
            Ok(e) => entry_matches(e, spec_parse(line@, start as int)),
            Err(iss) => spec_parse(line@, start as int) == issue_spec(iss),
        },
{
    proof {
        reveal_strlit("DIR");
        reveal_strlit("FIL");
        reveal_strlit("UKN");
        assert("DIR"@ =~= dir_tag());
        assert("FIL"@ =~= fil_tag());
        assert("UKN"@ =~= ukn_tag());
    }
    let len = line.unicode_len();
    let e0 = scan_field_end(line, start);
    let tag = line.substring_char(start, e0);
    if tag_matches(tag, "DIR") {
        if e0 >= len {
            return Err(LineIssue::MissingField);
        }
        let e1 = scan_field_end(line, e0 + 1);
        let name = line.substring_char(e0 + 1, e1).to_owned();
        if e1 >= len {
            return Err(LineIssue::MissingField);
        }
        let e2 = scan_field_end(line, e1 + 1);
        let mode_str = line.substring_char(e1 + 1, e2);
        match parse_u32(mode_str) {
            Some(mode) => Ok(Entry::Dir(name, mode, Vec::new())),
            None => Err(LineIssue::BadNumber),
        }
    } else if tag_matches(tag, "FIL") {
        if e0 >= len {
            return Err(LineIssue::MissingField);
        }
        let e1 = scan_field_end(line, e0 + 1);
        let name = line.substring_char(e0 + 1, e1).to_owned();
        if e1 >= len {
            return Err(LineIssue::MissingField);
        }
        let e2 = scan_field_end(line, e1 + 1);
        let mode_str = line.substring_char(e1 + 1, e2);
        match parse_u32(mode_str) {
            Some(mode) => {
                if e2 >= len {
                    return Err(LineIssue::MissingField);
                }
                let e3 = scan_field_end(line, e2 + 1);
                let size_str = line.substring_char(e2 + 1, e3);
                match parse_u64(size_str) {
                    Some(size) => Ok(Entry::File(name, mode, size)),
                    None => Err(LineIssue::BadNumber),
                }
            },
            None => Err(LineIssue::BadNumber),
        }
    } else if tag_matches(tag, "UKN") {
        Err(LineIssue::UnknownTag)
    } else {
        Err(LineIssue::UnrecognizedTag)
    }
}

} // verus!
