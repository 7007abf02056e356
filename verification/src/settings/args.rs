//! The command line, as plain values.
use vstd::prelude::*;
use crate::settings::config::OutputFormat;
use crate::text::{same_text, views};

verus! {

pub struct Args {
    pub manifest_path: Option<String>,
    pub packages: Vec<String>,
    pub header_file: Option<String>,
    pub format: OutputFormat,
    pub offence_threshold: Option<usize>,
    pub list_rules: bool,
    pub rules: Vec<String>,
    pub fix: bool,
    pub baseline: Option<String>,
    pub write_baseline: bool,
    pub excludes: Vec<String>,
    pub skipped_rules: Vec<String>,
}

/// The arguments with a repeated subcommand name taken out: cargo invokes
/// `cargo stern4rust` as `cargo-stern4rust stern4rust ...`.
pub open spec fn forwarded(args: Seq<Seq<char>>) -> Seq<Seq<char>> {
    if args.len() > 1 && args[1] == "stern4rust"@ {
        seq![args[0]] + args.skip(2)
    } else {
        args
    }
}

impl Args {
    pub fn without_cargo_subcommand(args: Vec<String>) -> (r: Vec<String>)
        ensures
            views(r@) == forwarded(views(args@)),
    {
        if args.len() < 2 || !same_text(args[1].as_str(), "stern4rust") {
            return args;
        }
        let mut out: Vec<String> = Vec::new();
        let mut rest = args;
        let tail = rest.split_off(2);
        let first = rest.swap_remove(0);
        out.push(first);
        let mut tail = tail;
        out.append(&mut tail);
        assert(views(out@) =~= forwarded(views(args@)));
        out
    }
}

} // verus!
