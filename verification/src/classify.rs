//! Line classification: one raw line of the day log is a task header, an
//! indented subfield, or ignored.

use vstd::prelude::*;

verus! {

#[derive(PartialEq, Eq, Structural, Clone, Copy, Debug)]
pub enum LineKind {
    TaskHeader,
    SubField,
    Ignored,
}

/// A top-level entry: the line opens with a dash and a space.
pub open spec fn has_header_prefix(s: Seq<char>) -> bool {
    s.len() >= 2 && s[0] == '-' && s[1] == ' '
}

/// An indented entry one level below a header: two spaces and a dash.
pub open spec fn has_subfield_prefix(s: Seq<char>) -> bool {
    s.len() >= 3 && s[0] == ' ' && s[1] == ' ' && s[2] == '-'
}

/// The category of one raw line. The header test comes first; anything
/// matching neither prefix is ignored.
pub open spec fn line_kind(s: Seq<char>) -> LineKind {
    if has_header_prefix(s) {
        LineKind::TaskHeader
    } else if has_subfield_prefix(s) {
        LineKind::SubField
    } else {
        LineKind::Ignored
    }
}

/// Classify one raw line by its prefix alone.
pub fn classify_line(line: &str) -> (k: LineKind)
    ensures
        k == line_kind(line@),
{
    let n = line.unicode_len();
    if n >= 2 && line.get_char(0) == '-' && line.get_char(1) == ' ' {
        LineKind::TaskHeader
    } else if n >= 3 && line.get_char(0) == ' ' && line.get_char(1) == ' ' && line.get_char(2)
        == '-' {
        LineKind::SubField
    } else {
        LineKind::Ignored
    }
}

} // verus!
