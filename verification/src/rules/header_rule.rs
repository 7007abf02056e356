//! Every `.rs` file opens with the repository's header.
//!
//! The expected text is data rather than a constant, because it is not the
//! same twice. Only the first divergence is reported: a file whose header is
//! missing altogether would otherwise produce one offence per header line,
//! burying every other file in the report behind it.
use vstd::prelude::*;
use crate::offence::{all_by, offence_views, plain, Offence, OffenceView};
use crate::source_file::{SourceFile, SourceFileView};
use crate::text::{debug_quoted, decimal, is_blank, join, join_texts, decimal_text, quoted, views};

verus! {

pub open spec fn header_rule_name() -> Seq<char> {
    "header"@
}

pub open spec fn header_correction() -> Seq<char> {
    "make the file open with the expected header, line for line"@
}

/// The first index below `n` at which the two sequences of lines differ.
pub open spec fn is_first_difference(a: Seq<Seq<char>>, b: Seq<Seq<char>>, n: int, i: int) -> bool {
    &&& 0 <= i < n
    &&& a[i] != b[i]
    &&& forall|j: int| 0 <= j < i ==> a[j] == b[j]
}

pub open spec fn differs_within(a: Seq<Seq<char>>, b: Seq<Seq<char>>, n: int) -> bool {
    exists|i: int| 0 <= i < n && a[i] != b[i]
}

pub open spec fn first_difference(a: Seq<Seq<char>>, b: Seq<Seq<char>>, n: int) -> int {
    choose|i: int| is_first_difference(a, b, n, i)
}

pub open spec fn missing_entirely(expected: Seq<Seq<char>>, file: SourceFileView) -> OffenceView {
    plain(file.path, 1, header_rule_name(), "file is empty, so it carries no header"@, header_correction())
        .expecting(join(expected, seq!['\n']))
}

pub open spec fn ends_early(expected: Seq<Seq<char>>, file: SourceFileView) -> OffenceView {
    plain(
        file.path,
        file.lines.len(),
        header_rule_name(),
        "file has "@ + decimal(file.lines.len()) + " lines but the header is "@ + decimal(expected.len()),
        header_correction(),
    ).expecting(join(expected, seq!['\n']))
}

pub open spec fn line_differs(expected: Seq<Seq<char>>, file: SourceFileView, index: int) -> OffenceView {
    plain(
        file.path,
        (index + 1) as nat,
        header_rule_name(),
        "expected "@ + debug_quoted(expected[index]) + " but found "@ + debug_quoted(file.lines[index]),
        header_correction(),
    ).expecting(join(expected, seq!['\n']))
}

pub open spec fn min(a: int, b: int) -> int {
    if a < b { a } else { b }
}

/// What the header rule finds in a file: nothing without an expected header;
/// for a blank file, that it carries none; otherwise the first line, within
/// both, that differs; otherwise that the file ends before the header does.
pub open spec fn header_offences(expected: Seq<Seq<char>>, file: SourceFileView) -> Seq<OffenceView> {
    let overlap = min(expected.len() as int, file.lines.len() as int);
    if expected.len() == 0 {
        seq![]
    } else if forall|i: int| 0 <= i < file.lines.len() ==> #[trigger] is_blank(file.lines[i]) {
        seq![missing_entirely(expected, file)]
    } else if differs_within(file.lines, expected, overlap) {
        seq![line_differs(expected, file, first_difference(file.lines, expected, overlap))]
    } else if file.lines.len() < expected.len() {
        seq![ends_early(expected, file)]
    } else {
        seq![]
    }
}

/// Every offence the rule finds is reported under its name.
pub proof fn lemma_header_by_rule(expected: Seq<Seq<char>>, file: SourceFileView)
    ensures
        all_by(header_offences(expected, file), header_rule_name()),
{
}

pub struct HeaderRule {
    expected: Vec<String>,
}

impl View for HeaderRule {
    type V = Seq<Seq<char>>;

    closed spec fn view(&self) -> Seq<Seq<char>> {
        views(self.expected@)
    }
}

impl HeaderRule {
    pub const NAME: &'static str = "header";

    pub fn new(expected: Vec<String>) -> (r: HeaderRule)
        ensures
            r@ == views(expected@),
    {
        HeaderRule { expected }
    }

    pub fn expected(&self) -> (r: &Vec<String>)
        ensures
            views(r@) == self@,
    {
        &self.expected
    }

    fn expected_text(&self) -> (r: String)
        ensures
            r@ == join(self@, seq!['\n']),
    {
        proof {
            reveal_strlit("\n");
            assert("\n"@ =~= seq!['\n']);
        }
        join_texts(&self.expected, "\n")
    }

    pub fn name(&self) -> (r: &'static str)
        ensures
            r@ == header_rule_name(),
    {
        "header"
    }

    fn correction() -> (r: String)
        ensures
            r@ == header_correction(),
    {
        String::from_str("make the file open with the expected header, line for line")
    }

    fn missing_entirely(&self, file: &SourceFile) -> (o: Offence)
        ensures
            o@ == missing_entirely(self@, file@),
    {
        let expected = self.expected_text();
        Offence::new(
            file.relative_path(),
            1,
            self.name(),
            String::from_str("file is empty, so it carries no header"),
            Self::correction(),
        ).with_expected(expected.as_str())
    }

    fn ends_early(&self, file: &SourceFile) -> (o: Offence)
        ensures
            o@ == ends_early(self@, file@),
    {
        let found = file.lines().len();
        let mut description = String::from_str("file has ");
        description.append(decimal_text(found).as_str());
        description.append(" lines but the header is ");
        description.append(decimal_text(self.expected.len()).as_str());
        let expected = self.expected_text();
        Offence::new(file.relative_path(), found, self.name(), description, Self::correction())
            .with_expected(expected.as_str())
    }

    fn line_differs(&self, file: &SourceFile, index: usize) -> (o: Offence)
        requires
            index < self@.len(),
            index < file@.lines.len(),
        ensures
            o@ == line_differs(self@, file@, index as int),
    {
        let lines = file.lines();
        let n = lines.len();
        assert(views(lines@).len() == lines@.len());
        assert(index < n);
        let mut description = String::from_str("expected ");
        description.append(quoted(self.expected[index].as_str()).as_str());
        description.append(" but found ");
        description.append(quoted(lines[index].as_str()).as_str());
        let expected = self.expected_text();
        Offence::new(file.relative_path(), index + 1, self.name(), description, Self::correction())
            .with_expected(expected.as_str())
    }

    /// The overlap is compared before the length, so a file whose very first
    /// line is wrong is reported at line 1 rather than at its end.
    pub fn check(&self, file: &SourceFile) -> (r: Vec<Offence>)
        ensures
            offence_views(r@) == header_offences(self@, file@),
    {
        if self.expected.len() == 0 {
            return Vec::new();
        }
        if file.is_empty() {
            let mut r = Vec::new();
            r.push(self.missing_entirely(file));
            assert(offence_views(r@) =~= header_offences(self@, file@));
            return r;
        }
        let lines = file.lines();
        let overlap = if self.expected.len() < lines.len() { self.expected.len() } else { lines.len() };
        let mut index: usize = 0;
        while index < overlap
            invariant
                overlap == min(self@.len() as int, file@.lines.len() as int),
                views(lines@) == file@.lines,
                index <= overlap,
                forall|j: int| 0 <= j < index ==> file@.lines[j] == self@[j],
                !(forall|i: int| 0 <= i < file@.lines.len() ==> #[trigger] is_blank(file@.lines[i])),
                self@.len() > 0,
            decreases overlap - index,
        {
            if lines[index] != self.expected[index] {
                proof {
                    assert(file@.lines[index as int] == lines@[index as int]@);
                    assert(self@[index as int] == self.expected@[index as int]@);
                    assert(is_first_difference(file@.lines, self@, overlap as int, index as int));
                    assert(differs_within(file@.lines, self@, overlap as int));
                    let k = first_difference(file@.lines, self@, overlap as int);
                    assert(is_first_difference(file@.lines, self@, overlap as int, k));
                    if k < index {
                        assert(file@.lines[k] == self@[k]);
                    } else if k > index {
                        assert(file@.lines[index as int] == self@[index as int]);
                    }
                }
                let mut r = Vec::new();
                r.push(self.line_differs(file, index));
                assert(!(forall|i: int| 0 <= i < file@.lines.len() ==> #[trigger] is_blank(file@.lines[i])));
                assert(first_difference(file@.lines, self@, overlap as int) == index);
                assert(header_offences(self@, file@) == seq![line_differs(self@, file@, index as int)]);
                assert(offence_views(r@) =~= header_offences(self@, file@));
                return r;
            }
            proof {
                assert(file@.lines[index as int] == lines@[index as int]@);
                assert(self@[index as int] == self.expected@[index as int]@);
            }
            index = index + 1;
        }
        if lines.len() < self.expected.len() {
            let mut r = Vec::new();
            r.push(self.ends_early(file));
            assert(offence_views(r@) =~= header_offences(self@, file@));
            return r;
        }
        let r = Vec::new();
        assert(offence_views(r@) =~= header_offences(self@, file@));
        r
    }
}

} // verus!
