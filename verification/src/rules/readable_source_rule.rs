//! Every `.rs` file can be read and parsed.
//!
//! This rule exists because silence is indistinguishable from success: every
//! other rule that parses gives up quietly on source it cannot read, so a
//! corrupted file would otherwise disappear from the report entirely.
use vstd::prelude::*;
use crate::offence::{all_by, offence_views, plain, Offence, OffenceView};
use crate::source_file::{rejoined, SourceFile, SourceFileView};
use crate::syntax::{outline, parse_failure};

verus! {

pub open spec fn readable_rule_name() -> Seq<char> {
    "readable-source"@
}

/// The offence for a file that could not be read at all.
pub open spec fn unreadable(path: Seq<char>, error: Seq<char>) -> OffenceView {
    plain(path, 1, readable_rule_name(), "file could not be read: "@ + error,
        "make the file readable, or restore it if it is corrupted"@).about(path)
}

/// What the rule finds in a file: nothing where it parses; otherwise one
/// offence at the line the parser names, line 0 read as line 1.
pub open spec fn readable_offences(file: SourceFileView) -> Seq<OffenceView> {
    match parse_failure(crate::syntax::parsed_text(file.lines)) {
        None => Seq::<OffenceView>::empty(),
        Some((line, message)) => seq![plain(
            file.path,
            if line > 1 { line } else { 1 },
            readable_rule_name(),
            "file does not parse as Rust: "@ + message,
            "correct the syntax error rustc reports for this file, or restore the file if it is corrupted"@,
        ).about(file.path)],
    }
}

/// Every offence the rule finds is reported under its name.
pub proof fn lemma_readable_by_rule(file: SourceFileView)
    ensures
        all_by(readable_offences(file), readable_rule_name()),
{
}

pub struct ReadableSourceRule;

impl ReadableSourceRule {
    /// Shared with the reader, which reports the same rule for a file that
    /// could not be read at all.
    pub const NAME: &'static str = "readable-source";

    pub fn new() -> (r: ReadableSourceRule) {
        ReadableSourceRule
    }

    pub fn name(&self) -> (r: &'static str)
        ensures
            r@ == readable_rule_name(),
    {
        "readable-source"
    }

    /// A parse error's span can be the call site rather than a real position,
    /// so line 0 is reported as line 1.
    fn line_of(line: usize) -> (r: usize)
        ensures
            r == (if line > 1 { line } else { 1 }),
    {
        if line > 1 { line } else { 1 }
    }

    pub fn check(&self, file: &SourceFile) -> (r: Vec<Offence>)
        ensures
            offence_views(r@) == readable_offences(file@),
    {
        let contents = file.contents();
        let mut r = Vec::new();
        match outline(contents.as_str()) {
            Ok(_) => {},
            Err((line, message)) => {
                let mut description = String::from_str("file does not parse as Rust: ");
                description.append(message.as_str());
                let o = Offence::new(
                    file.relative_path(),
                    Self::line_of(line),
                    self.name(),
                    description,
                    String::from_str("correct the syntax error rustc reports for this file, or restore the file if it is corrupted"),
                ).with_subject(file.relative_path());
                r.push(o);
            },
        }
        assert(offence_views(r@) =~= readable_offences(file@));
        r
    }

    /// The finding for a file the reader could not read, stated against the
    /// same rule.
    pub fn unreadable(relative: &str, error: &str) -> (o: Offence)
        ensures
            o@ == unreadable(relative@, error@),
    {
        let mut description = String::from_str("file could not be read: ");
        description.append(error);
        Offence::new(
            relative,
            1,
            Self::NAME,
            description,
            String::from_str("make the file readable, or restore it if it is corrupted"),
        ).with_subject(relative)
    }
}

} // verus!
