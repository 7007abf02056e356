//! A workspace declares its dependencies once, in the root, and every member
//! takes them from there.
//!
//! The declarations are read from the manifests as written, because the
//! question is how a dependency was spelled: resolution erases exactly the
//! difference between one taken from the workspace and one spelled out in a
//! member. A package that is not a workspace has no root to centralise into,
//! and the rule says nothing about it.
use vstd::prelude::*;
use crate::rule_explanation::RuleExplanation;
use crate::offence::{all_by, lemma_all_by_push, offence_views, plain, Offence, OffenceView};
use crate::settings::manifest_dependency::ManifestDependency;
use crate::source_file::SourceFile;

verus! {

pub open spec fn workspace_rule_name() -> Seq<char> {
    "workspace-dependencies"@
}

pub open spec fn workspace_form(name: Seq<char>) -> Seq<char> {
    name + " = { workspace = true }"@
}

pub open spec fn dependency_offence(d: ManifestDependency) -> OffenceView {
    plain(
        d.manifest@,
        1,
        workspace_rule_name(),
        d.manifest@ + " declares `"@ + d.name@ + "` in ["@ + d.section@
            + "] rather than taking it from the workspace"@,
        "add `"@ + d.name@ + "` to [workspace.dependencies] in the root manifest, and write `"@
            + workspace_form(d.name@) + "` here"@,
    ).about(d.name@).expecting(workspace_form(d.name@))
}

/// One offence per declaration, in order, that does not take its dependency
/// from the workspace.
pub open spec fn dependency_offences(declared: Seq<ManifestDependency>) -> Seq<OffenceView>
    decreases declared.len(),
{
    if declared.len() == 0 {
        Seq::<OffenceView>::empty()
    } else {
        let earlier = dependency_offences(declared.drop_last());
        if declared.last().takes_from_workspace {
            earlier
        } else {
            earlier.push(dependency_offence(declared.last()))
        }
    }
}

/// Every offence the rule finds is reported under its name.
pub proof fn lemma_dependencies_by_rule(declared: Seq<ManifestDependency>)
    ensures
        all_by(dependency_offences(declared), workspace_rule_name()),
    decreases declared.len(),
{
    if declared.len() > 0 {
        lemma_dependencies_by_rule(declared.drop_last());
        if !declared.last().takes_from_workspace {
            lemma_all_by_push(dependency_offences(declared.drop_last()), dependency_offence(declared.last()), workspace_rule_name());
        }
    }
}

/// What the rule wants, a scrap of source that breaks it and the same scrap
/// put right.
pub open spec fn workspace_explanation() -> (Seq<char>, Seq<char>, Seq<char>, Seq<char>) {
    (
        workspace_rule_name(),
        "A workspace declares its dependencies once, in the root, and every member takes them from there."@,
        "serde = { version = \"1\" }   -- in a member manifest"@,
        "serde.workspace = true"@,
    )
}

pub struct WorkspaceDependenciesRule {
    declared: Option<Vec<ManifestDependency>>,
}

impl WorkspaceDependenciesRule {
    /// The rule over the declarations of a workspace's members; `None` for a
    /// package that is not a workspace.
    pub fn new(declared: Option<Vec<ManifestDependency>>) -> (r: WorkspaceDependenciesRule)
        ensures
            r.declared() == declared,
    {
        WorkspaceDependenciesRule { declared }
    }

    pub closed spec fn declared(&self) -> Option<Vec<ManifestDependency>> {
        self.declared
    }

    pub fn name(&self) -> (r: &'static str)
        ensures
            r@ == workspace_rule_name(),
    {
        "workspace-dependencies"
    }

    /// What the rule wants, a scrap of source that breaks it and the same
    /// scrap put right.
    pub fn explanation(&self) -> (r: RuleExplanation)
        ensures
            r@ == workspace_explanation(),
    {
        RuleExplanation::new(
            self.name(),
            "A workspace declares its dependencies once, in the root, and every member takes them from there.",
            "serde = { version = \"1\" }   -- in a member manifest",
            "serde.workspace = true",
        )
    }

    /// Reported against the member manifest at line 1: the edit is one line
    /// in that file, plus one in the root.
    fn offence(&self, dependency: &ManifestDependency) -> (o: Offence)
        ensures
            o@ == dependency_offence(*dependency),
    {
        let name = dependency.name.as_str();
        let mut expected = String::from_str(name);
        expected.append(" = { workspace = true }");
        let mut description = dependency.manifest.clone();
        description.append(" declares `");
        description.append(name);
        description.append("` in [");
        description.append(dependency.section.as_str());
        description.append("] rather than taking it from the workspace");
        let mut correction = String::from_str("add `");
        correction.append(name);
        correction.append("` to [workspace.dependencies] in the root manifest, and write `");
        correction.append(expected.as_str());
        correction.append("` here");
        Offence::new(dependency.manifest.as_str(), 1, self.name(), description, correction)
            .with_subject(name)
            .with_expected(expected.as_str())
    }

    /// Nothing: manifests are not among the files walked.
    pub fn check(&self, file: &SourceFile) -> (r: Vec<Offence>)
        ensures
            r@.len() == 0,
    {
        Vec::new()
    }

    pub fn check_workspace(&self, files: &Vec<SourceFile>) -> (r: Vec<Offence>)
        ensures
            match self.declared() {
                None => r@.len() == 0,
                Some(declared) => offence_views(r@) == dependency_offences(declared@),
            },
    {
        let mut r: Vec<Offence> = Vec::new();
        match &self.declared {
            None => r,
            Some(declared) => {
                let mut i: usize = 0;
                assert(declared@.take(0) =~= Seq::<ManifestDependency>::empty());
                while i < declared.len()
                    invariant
                        i <= declared.len(),
                        offence_views(r@) == dependency_offences(declared@.take(i as int)),
                    decreases declared.len() - i,
                {
                    assert(declared@.take(i + 1).drop_last() == declared@.take(i as int));
                    assert(declared@.take(i + 1).last() == declared@[i as int]);
                    if !declared[i].takes_from_workspace {
                        let o = self.offence(&declared[i]);
                        r.push(o);
                        assert(offence_views(r@) =~= offence_views(r@.drop_last()).push(o@));
                    }
                    i = i + 1;
                }
                assert(declared@.take(declared.len() as int) == declared@);
                r
            },
        }
    }
}

} // verus!
