//! Every file's SPDX identifier says what the manifest says.
//!
//! The header is the comment block a file opens with -- everything before the
//! first line that is neither blank nor a `//` comment. An SPDX line below that
//! is prose or code, and does not declare anything. A manifest that declares
//! no licence leaves the rule with nothing to work from, so it stands down.
use vstd::prelude::*;
use crate::rule_explanation::RuleExplanation;
use crate::offence::{all_by, offence_views, plain, Offence, OffenceView};
use crate::source_file::{SourceFile, SourceFileView};
use crate::text::{after_first, has_prefix, occurs, starts_with, text_after, trim, trimmed, views};

verus! {

pub open spec fn spdx_rule_name() -> Seq<char> {
    "spdx-matches-manifest"@
}

pub open spec fn marker() -> Seq<char> {
    "SPDX-License-Identifier:"@
}

/// A line that belongs to the opening comment block.
pub open spec fn is_header_line(line: Seq<char>) -> bool {
    trim(line).len() == 0 || starts_with(trim(line), "//"@)
}

/// How many lines the opening comment block runs to.
pub open spec fn header_length(lines: Seq<Seq<char>>) -> nat
    decreases lines.len(),
{
    if lines.len() > 0 && is_header_line(lines[0]) {
        1 + header_length(lines.drop_first())
    } else {
        0
    }
}

/// The opening comment block of a file.
pub open spec fn header_of(lines: Seq<Seq<char>>) -> Seq<Seq<char>> {
    lines.take(header_length(lines) as int)
}

/// The identifier the first line carrying the marker declares, trimmed.
pub open spec fn declared_among(lines: Seq<Seq<char>>) -> Option<Seq<char>>
    decreases lines.len(),
{
    if lines.len() == 0 {
        None
    } else {
        match after_first(lines[0], marker()) {
            Some(found) => Some(trim(found)),
            None => declared_among(lines.drop_first()),
        }
    }
}

pub open spec fn declared_in(file: SourceFileView) -> Option<Seq<char>> {
    declared_among(header_of(file.lines))
}

pub open spec fn missing(file: SourceFileView, expected: Seq<char>) -> OffenceView {
    plain(
        file.path,
        1,
        spdx_rule_name(),
        file.path + " carries no `"@ + marker() + "`, so nothing ties it to the `"@ + expected
            + "` the manifest declares"@,
        "add `// "@ + marker() + " "@ + expected + "` to the header, or correct the manifest"@,
    ).about(file.path).expecting(expected)
}

pub open spec fn differs(file: SourceFileView, found: Seq<char>, expected: Seq<char>) -> OffenceView {
    plain(
        file.path,
        1,
        spdx_rule_name(),
        file.path + " declares `"@ + found + "` where the manifest declares `"@ + expected + "`"@,
        "change the header to `// "@ + marker() + " "@ + expected + "`, or correct the manifest"@,
    ).about(file.path).expecting(expected)
}

/// What the rule finds in a file, given the licence the manifest declares.
pub open spec fn spdx_offences(license: Option<Seq<char>>, file: SourceFileView) -> Seq<OffenceView> {
    match license {
        None => seq![],
        Some(expected) => match declared_in(file) {
            None => seq![missing(file, expected)],
            Some(found) => if found != expected {
                seq![differs(file, found, expected)]
            } else {
                seq![]
            },
        },
    }
}

/// Every offence the rule finds is reported under its name.
pub proof fn lemma_spdx_by_rule(license: Option<Seq<char>>, file: SourceFileView)
    ensures
        all_by(spdx_offences(license, file), spdx_rule_name()),
{
}

/// What the rule wants, a scrap of source that breaks it and the same scrap
/// put right.
pub open spec fn spdx_explanation() -> (Seq<char>, Seq<char>, Seq<char>, Seq<char>) {
    (
        spdx_rule_name(),
        "Every file's SPDX identifier says what the manifest says."@,
        "// SPDX-License-Identifier: Apache-2.0   -- manifest says MIT"@,
        "// SPDX-License-Identifier: MIT"@,
    )
}

pub struct SpdxMatchesManifestRule {
    license: Option<String>,
}

impl View for SpdxMatchesManifestRule {
    type V = Option<Seq<char>>;

    closed spec fn view(&self) -> Option<Seq<char>> {
        match self.license {
            Some(l) => Some(l@),
            None => None,
        }
    }
}

pub proof fn lemma_header_length_bound(lines: Seq<Seq<char>>)
    ensures
        header_length(lines) <= lines.len(),
    decreases lines.len(),
{
    if lines.len() > 0 && is_header_line(lines[0]) {
        lemma_header_length_bound(lines.drop_first());
    }
}

impl SpdxMatchesManifestRule {
    pub const MANIFEST: &'static str = "Cargo.toml";
    pub const MARKER: &'static str = "SPDX-License-Identifier:";

    pub fn new(license: Option<String>) -> (r: SpdxMatchesManifestRule)
        ensures
            r@ == (match license {
                Some(l) => Some(l@),
                None => None::<Seq<char>>,
            }),
    {
        SpdxMatchesManifestRule { license }
    }

    pub fn name(&self) -> (r: &'static str)
        ensures
            r@ == spdx_rule_name(),
    {
        "spdx-matches-manifest"
    }

    /// What the rule wants, a scrap of source that breaks it and the same
    /// scrap put right.
    pub fn explanation(&self) -> (r: RuleExplanation)
        ensures
            r@ == spdx_explanation(),
    {
        RuleExplanation::new(
            self.name(),
            "Every file's SPDX identifier says what the manifest says.",
            "// SPDX-License-Identifier: Apache-2.0   -- manifest says MIT",
            "// SPDX-License-Identifier: MIT",
        )
    }

    /// The manifest configures this rule, so without a licence it has nothing
    /// to check against.
    pub fn is_configured(&self) -> (b: bool)
        ensures
            b == self@.is_some(),
    {
        self.license.is_some()
    }

    fn is_header_line(line: &str) -> (b: bool)
        ensures
            b == is_header_line(line@),
    {
        let text = trimmed(line);
        text.as_str().unicode_len() == 0 || has_prefix(text.as_str(), "//")
    }

    /// How many lines the opening comment block of the file runs to.
    fn header_of(file: &SourceFile) -> (n: usize)
        ensures
            n == header_length(file@.lines),
            n <= file@.lines.len(),
    {
        let lines = file.lines();
        let mut n: usize = 0;
        assert(file@.lines.skip(0) == file@.lines);
        while n < lines.len() && Self::is_header_line(lines[n].as_str())
            invariant
                views(lines@) == file@.lines,
                n <= lines.len(),
                header_length(file@.lines) == n + header_length(file@.lines.skip(n as int)),
            decreases lines.len() - n,
        {
            assert(file@.lines.skip(n as int)[0] == lines@[n as int]@);
            assert(file@.lines.skip(n as int).drop_first() == file@.lines.skip(n + 1));
            n = n + 1;
        }
        proof {
            if n < lines.len() {
                assert(file@.lines.skip(n as int)[0] == lines@[n as int]@);
            }
        }
        n
    }

    fn declared_in(file: &SourceFile) -> (r: Option<String>)
        ensures
            match r {
                Some(t) => declared_in(file@) == Some(t@),
                None => declared_in(file@).is_none(),
            },
    {
        let n = Self::header_of(file);
        let lines = file.lines();
        let ghost header = header_of(file@.lines);
        let mut i: usize = 0;
        assert(header.skip(0) == header);
        while i < n
            invariant
                views(lines@) == file@.lines,
                n == header_length(file@.lines),
                n <= lines.len(),
                header == file@.lines.take(n as int),
                i <= n,
                declared_among(header) == declared_among(header.skip(i as int)),
            decreases n - i,
        {
            assert(header.skip(i as int)[0] == lines@[i as int]@);
            match text_after(lines[i].as_str(), Self::MARKER) {
                Some(found) => {
                    proof {
                        reveal_strlit("SPDX-License-Identifier:");
                    }
                    return Some(trimmed(found.as_str()));
                },
                None => {
                    assert(header.skip(i as int).drop_first() == header.skip(i + 1));
                },
            }
            i = i + 1;
        }
        assert(header.skip(n as int).len() == 0);
        None
    }

    fn missing(&self, file: &SourceFile, expected: &str) -> (o: Offence)
        ensures
            o@ == missing(file@, expected@),
    {
        let path = file.relative_path();
        let mut description = String::from_str(path);
        description.append(" carries no `");
        description.append(Self::MARKER);
        description.append("`, so nothing ties it to the `");
        description.append(expected);
        description.append("` the manifest declares");
        let mut correction = String::from_str("add `// ");
        correction.append(Self::MARKER);
        correction.append(" ");
        correction.append(expected);
        correction.append("` to the header, or correct the manifest");
        proof {
            reveal_strlit("SPDX-License-Identifier:");
        }
        Offence::new(path, 1, self.name(), description, correction)
            .with_subject(path)
            .with_expected(expected)
    }

    fn differs(&self, file: &SourceFile, found: &str, expected: &str) -> (o: Offence)
        ensures
            o@ == differs(file@, found@, expected@),
    {
        let path = file.relative_path();
        let mut description = String::from_str(path);
        description.append(" declares `");
        description.append(found);
        description.append("` where the manifest declares `");
        description.append(expected);
        description.append("`");
        let mut correction = String::from_str("change the header to `// ");
        correction.append(Self::MARKER);
        correction.append(" ");
        correction.append(expected);
        correction.append("`, or correct the manifest");
        proof {
            reveal_strlit("SPDX-License-Identifier:");
        }
        Offence::new(path, 1, self.name(), description, correction)
            .with_subject(path)
            .with_expected(expected)
    }

    pub fn check(&self, file: &SourceFile) -> (r: Vec<Offence>)
        ensures
            offence_views(r@) == spdx_offences(self@, file@),
    {
        let mut r = Vec::new();
        match &self.license {
            None => {},
            Some(expected) => match Self::declared_in(file) {
                None => {
                    r.push(self.missing(file, expected.as_str()));
                },
                Some(found) => {
                    if found != *expected {
                        r.push(self.differs(file, found.as_str(), expected.as_str()));
                    }
                },
            },
        }
        assert(offence_views(r@) =~= spdx_offences(self@, file@));
        r
    }
}

} // verus!
