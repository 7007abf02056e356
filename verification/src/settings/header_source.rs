//! The expected header, as read from the header file's text.
//!
//! Trailing blank lines are dropped so the file can end with a newline -- every
//! editor adds one -- without the rule then demanding a blank line at the top
//! of every source file. The same normalisation a source file gets is applied
//! here, so a header file saved with CRLF or a byte order mark still matches
//! sources that were not.
use vstd::prelude::*;
use crate::source_file::{lines_of, normalised_lines};
use crate::text::{is_blank, is_blank_text, views};

verus! {

/// The lines with every trailing blank one removed.
pub open spec fn without_trailing_blanks(lines: Seq<Seq<char>>) -> Seq<Seq<char>>
    decreases lines.len(),
{
    if lines.len() > 0 && is_blank(lines.last()) {
        without_trailing_blanks(lines.drop_last())
    } else {
        lines
    }
}

/// The header lines a header file's text states.
pub open spec fn header_lines(contents: Seq<char>) -> Seq<Seq<char>> {
    without_trailing_blanks(normalised_lines(contents))
}

pub struct HeaderSource;

impl HeaderSource {
    pub fn parse(contents: &str) -> (r: Vec<String>)
        ensures
            views(r@) == header_lines(contents@),
    {
        let mut lines = lines_of(contents);
        while lines.len() > 0 && is_blank_text(lines[lines.len() - 1].as_str())
            invariant
                without_trailing_blanks(views(lines@)) == header_lines(contents@),
            decreases lines.len(),
        {
            let ghost before = views(lines@);
            assert(before.last() == lines@[lines.len() - 1]@);
            lines.pop();
            assert(views(lines@) =~= before.drop_last());
        }
        proof {
            if lines.len() > 0 {
                assert(views(lines@).last() == lines@[lines.len() - 1]@);
            }
        }
        lines
    }
}

} // verus!
