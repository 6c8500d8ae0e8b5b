//! The check command: what is asked of the registry, which upgrades are
//! planned, and what is done about them.

use vstd::prelude::*;
use vstd::string::*;
use crate::manifest::{dependency_views, Dependency, DependencyView};
use crate::pattern::{should_check, should_check_spec, string_views};
use crate::planner::{compute_updates, plan_spec, update_views, Update};
use crate::registry::LatestVersions;
use crate::version::{normalize_spec, strip_version_operator_spec};

verus! {

/// The settings of one check: the manifest to look at, whether to write the
/// upgrades into it, whether to ask which ones, and the patterns that select
/// and exclude packages.
#[derive(Debug)]
pub struct CheckCommand {
    pub manifest_path: String,
    pub upgrade: bool,
    pub interactive: bool,
    pub filter: Vec<String>,
    pub reject: Vec<String>,
}

/// What is to be done once the registry has answered.
#[derive(Debug)]
pub enum Step {
    /// The manifest declares no dependency with a version.
    NoDependencies,
    /// No dependency has a newer version.
    UpToDate,
    /// These upgrades are due, and are only shown.
    Suggest(Vec<Update>),
    /// These upgrades are due, and are written into the manifest.
    Upgrade(Vec<Update>),
}

/// The names of the dependencies that the filters let through, in order, one
/// for each such dependency.
pub open spec fn queried_names(
    deps: Seq<DependencyView>,
    filters: Seq<Seq<char>>,
    rejects: Seq<Seq<char>>,
) -> Seq<Seq<char>>
    decreases deps.len(),
{
    if deps.len() == 0 {
        Seq::empty()
    } else {
        let rest = queried_names(deps.drop_last(), filters, rejects);
        if should_check_spec(filters, rejects, deps.last().name) {
            rest.push(deps.last().name)
        } else {
            rest
        }
    }
}

impl CheckCommand {
    /// A check with the given settings.
    pub fn new(
        manifest_path: String,
        upgrade: bool,
        interactive: bool,
        filter: Vec<String>,
        reject: Vec<String>,
    ) -> (cmd: CheckCommand)
        ensures
            cmd.manifest_path == manifest_path,
            cmd.upgrade == upgrade,
            cmd.interactive == interactive,
            cmd.filter == filter,
            cmd.reject == reject,
    {
        CheckCommand { manifest_path, upgrade, interactive, filter, reject }
    }

    /// Whether the dependency called `name` is looked at: if filters are set,
    /// one of them must match the name, and no reject pattern may match it.
    pub fn should_check_dependency(&self, name: &str) -> (checked: bool)
        ensures
            checked == should_check_spec(
                string_views(self.filter@),
                string_views(self.reject@),
                name@,
            ),
    {
        should_check(&self.filter, &self.reject, name)
    }

    /// `version` without surrounding whitespace and without its operator.
    pub fn strip_version_operator(&self, version: &str) -> (bare: String)
        ensures
            bare@ == strip_version_operator_spec(version@),
    {
        crate::version::strip_version_operator(version)
    }

    /// `version` completed to three components where it has one or two.
    pub fn normalize_version(&self, version: &str) -> (full: String)
        ensures
            full@ == normalize_spec(version@),
    {
        crate::version::normalize_version(version)
    }

    /// The packages to ask the registry about: the name of each dependency
    /// that the filters let through.
    pub fn names_to_query(&self, deps: &Vec<Dependency>) -> (names: Vec<String>)
        ensures
            string_views(names@) == queried_names(
                dependency_views(deps@),
                string_views(self.filter@),
                string_views(self.reject@),
            ),
    {
        let ghost views = dependency_views(deps@);
        let ghost f = string_views(self.filter@);
        let ghost r = string_views(self.reject@);
        let mut names: Vec<String> = Vec::new();
        let mut i: usize = 0;
        assert(views.subrange(0, 0) =~= Seq::<DependencyView>::empty());
        assert(string_views(names@) =~= Seq::<Seq<char>>::empty());
        while i < deps.len()
            invariant
                i <= deps.len(),
                views == dependency_views(deps@),
                f == string_views(self.filter@),
                r == string_views(self.reject@),
                string_views(names@) == queried_names(views.subrange(0, i as int), f, r),
            decreases deps.len() - i,
        {
            let ghost before = string_views(names@);
            proof {
                let next = views.subrange(0, i as int + 1);
                assert(next.drop_last() =~= views.subrange(0, i as int));
                assert(next.last() == deps@[i as int]@);
            }
            if self.should_check_dependency(deps[i].name.as_str()) {
                names.push(deps[i].name.clone());
                assert(string_views(names@) =~= before.push(deps@[i as int]@.name));
            }
            i = i + 1;
        }
        assert(views.subrange(0, deps.len() as int) =~= views);
        names
    }

    /// The upgrades that are due, given the versions the registry reported.
    pub fn plan(&self, deps: &Vec<Dependency>, latest: &LatestVersions) -> (plan: Vec<Update>)
        ensures
            update_views(plan@) == plan_spec(
                dependency_views(deps@),
                latest@,
                string_views(self.filter@),
                string_views(self.reject@),
            ),
    {
        compute_updates(deps, latest, &self.filter, &self.reject)
    }

    /// What to do once the registry has answered: nothing where there are no
    /// dependencies or no upgrades, and else show the plan or, where upgrading
    /// was asked for, write it.
    pub fn next_step(&self, deps: &Vec<Dependency>, latest: &LatestVersions) -> (step: Step)
        ensures
            ({
                let plan = plan_spec(
                    dependency_views(deps@),
                    latest@,
                    string_views(self.filter@),
                    string_views(self.reject@),
                );
                if deps@.len() == 0 {
                    step is NoDependencies
                } else if plan.len() == 0 {
                    step is UpToDate
                } else if self.upgrade {
                    step is Upgrade && update_views(step->Upgrade_0@) == plan
                } else {
                    step is Suggest && update_views(step->Suggest_0@) == plan
                }
            }),
    {
        if deps.len() == 0 {
            return Step::NoDependencies;
        }
        let plan = self.plan(deps, latest);
        assert(update_views(plan@).len() == plan@.len());
        if plan.len() == 0 {
            Step::UpToDate
        } else if self.upgrade {
            Step::Upgrade(plan)
        } else {
            Step::Suggest(plan)
        }
    }
}

} // verus!
