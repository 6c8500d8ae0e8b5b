//! Planning upgrades: which dependencies have a newer version in the registry,
//! and how large the step is.

use vstd::prelude::*;
use vstd::string::*;
use crate::manifest::{
    dependency_views, distinct_dependencies, same_key, Dependency, DependencyView,
};
use crate::pattern::{should_check, should_check_spec, string_views};
use crate::registry::LatestVersions;
use crate::semantic::{
    classify_severity, classify_spec, newer_spec, SemVer, SemVerView, Severity,
};
use crate::version::{to_comparable, to_comparable_spec};

verus! {

/// One planned upgrade: the dependency, the version its range compares as, the
/// newest version, and how large the step between the two is.
#[derive(Debug, PartialEq, Eq)]
pub struct Update {
    pub dependency: Dependency,
    pub current_version: SemVer,
    pub latest_version: SemVer,
    pub severity: Severity,
}

/// What an `Update` stands for in contracts.
pub struct UpdateView {
    pub dependency: DependencyView,
    pub current_version: SemVerView,
    pub latest_version: SemVerView,
    pub severity: Severity,
}

impl View for Update {
    type V = UpdateView;

    open spec fn view(&self) -> UpdateView {
        UpdateView {
            dependency: self.dependency@,
            current_version: self.current_version@,
            latest_version: self.latest_version@,
            severity: self.severity,
        }
    }
}

impl Clone for Update {
    fn clone(&self) -> (copy: Update)
        ensures
            copy@ == self@,
    {
        Update {
            dependency: self.dependency.clone(),
            current_version: self.current_version.clone(),
            latest_version: self.latest_version.clone(),
            severity: self.severity,
        }
    }
}

/// The views of a list of updates.
pub open spec fn update_views(list: Seq<Update>) -> Seq<UpdateView> {
    Seq::new(list.len(), |i: int| list[i]@)
}

/// The upgrade that `dep` is due, if any. There is none where the filters
/// leave the dependency out, where the registry gave no version for it, where
/// its range does not reduce to a version, or where the newest version is not
/// strictly greater than that version.
pub open spec fn candidate(
    dep: DependencyView,
    latest: Map<Seq<char>, SemVerView>,
    filters: Seq<Seq<char>>,
    rejects: Seq<Seq<char>>,
) -> Option<UpdateView> {
    if !should_check_spec(filters, rejects, dep.name) || !latest.contains_key(dep.name) {
        None
    } else {
        match to_comparable_spec(dep.version) {
            None => None,
            Some(current) => if newer_spec(latest[dep.name], current) {
                Some(
                    UpdateView {
                        dependency: dep,
                        current_version: current,
                        latest_version: latest[dep.name],
                        severity: classify_spec(current, latest[dep.name]),
                    },
                )
            } else {
                None
            },
        }
    }
}

/// The plan for `deps`: the upgrade of each dependency that is due one, in the
/// order of the dependencies.
pub open spec fn plan_spec(
    deps: Seq<DependencyView>,
    latest: Map<Seq<char>, SemVerView>,
    filters: Seq<Seq<char>>,
    rejects: Seq<Seq<char>>,
) -> Seq<UpdateView>
    decreases deps.len(),
{
    if deps.len() == 0 {
        Seq::empty()
    } else {
        let rest = plan_spec(deps.drop_last(), latest, filters, rejects);
        match candidate(deps.last(), latest, filters, rejects) {
            Some(update) => rest.push(update),
            None => rest,
        }
    }
}

/// Works out the upgrade that one dependency is due.
pub fn check_dependency(
    dep: &Dependency,
    latest: &LatestVersions,
    filters: &Vec<String>,
    rejects: &Vec<String>,
) -> (r: Option<Update>)
    ensures
        r is Some <==> candidate(dep@, latest@, string_views(filters@), string_views(rejects@))
            is Some,
        r is Some ==> r.unwrap()@ == candidate(
            dep@,
            latest@,
            string_views(filters@),
            string_views(rejects@),
        ).unwrap(),
{
    if !should_check(filters, rejects, dep.name.as_str()) {
        return None;
    }
    let newest = match latest.get(dep.name.as_str()) {
        Some(v) => v,
        None => {
            return None;
        },
    };
    let current = match to_comparable(dep.version.as_str()) {
        Ok(v) => v,
        Err(_) => {
            return None;
        },
    };
    if !newest.is_newer_than(&current) {
        return None;
    }
    let severity = classify_severity(&current, &newest);
    Some(
        Update {
            dependency: dep.clone(),
            current_version: current,
            latest_version: newest,
            severity,
        },
    )
}

/// Plans the upgrades. A dependency is in the plan exactly when the filters
/// let it through (it matches one of `filters`, unless there are none, and
/// none of `rejects`), `latest` has a version for it, its range reduces to a
/// version, and the newest version is strictly greater than that. The plan
/// keeps the order of `deps` and depends on nothing but the arguments.
pub fn compute_updates(
    deps: &Vec<Dependency>,
    latest: &LatestVersions,
    filters: &Vec<String>,
    rejects: &Vec<String>,
) -> (plan: Vec<Update>)
    ensures
        update_views(plan@) == plan_spec(
            dependency_views(deps@),
            latest@,
            string_views(filters@),
            string_views(rejects@),
        ),
{
    let ghost views = dependency_views(deps@);
    let ghost f = string_views(filters@);
    let ghost r = string_views(rejects@);
    let mut plan: Vec<Update> = Vec::new();
    let mut i: usize = 0;
    assert(views.subrange(0, 0) =~= Seq::<DependencyView>::empty());
    assert(update_views(plan@) =~= Seq::<UpdateView>::empty());
    while i < deps.len()
        invariant
            i <= deps.len(),
            views == dependency_views(deps@),
            f == string_views(filters@),
            r == string_views(rejects@),
            update_views(plan@) == plan_spec(views.subrange(0, i as int), latest@, f, r),
        decreases deps.len() - i,
    {
        let ghost before = update_views(plan@);
        proof {
            let next = views.subrange(0, i as int + 1);
            assert(next.drop_last() =~= views.subrange(0, i as int));
            assert(next.last() == deps@[i as int]@);
        }
        match check_dependency(&deps[i], latest, filters, rejects) {
            Some(update) => {
                let ghost added = update@;
                plan.push(update);
                assert(update_views(plan@) =~= before.push(added));
            },
            None => {},
        }
        i = i + 1;
    }
    assert(views.subrange(0, deps.len() as int) =~= views);
    plan
}

/// Whether no two updates of `plan` are for the same name in the same section.
pub open spec fn distinct_updates(plan: Seq<UpdateView>) -> bool {
    forall|i: int, j: int|
        0 <= i < j < plan.len() ==> !same_key(
            (#[trigger] plan[i]).dependency,
            (#[trigger] plan[j]).dependency,
        )
}

/// Every update of a plan is for one of the dependencies, and is the upgrade
/// that this dependency is due: the newest version is strictly greater than
/// the current one, and the severity is that of the step between them.
pub proof fn lemma_plan_members(
    deps: Seq<DependencyView>,
    latest: Map<Seq<char>, SemVerView>,
    filters: Seq<Seq<char>>,
    rejects: Seq<Seq<char>>,
    k: int,
)
    requires
        0 <= k < plan_spec(deps, latest, filters, rejects).len(),
    ensures
        exists|i: int|
            0 <= i < deps.len() && candidate(#[trigger] deps[i], latest, filters, rejects) == Some(
                plan_spec(deps, latest, filters, rejects)[k],
            ),
    decreases deps.len(),
{
    let plan = plan_spec(deps, latest, filters, rejects);
    let init = deps.drop_last();
    let rest = plan_spec(init, latest, filters, rejects);
    lemma_plan_length(init, latest, filters, rejects);
    if k < rest.len() {
        lemma_plan_members(init, latest, filters, rejects, k);
        let i = choose|i: int|
            0 <= i < init.len() && candidate(#[trigger] init[i], latest, filters, rejects) == Some(
                rest[k],
            );
        assert(deps[i] == init[i]);
    } else {
        assert(candidate(deps[deps.len() - 1], latest, filters, rejects) == Some(plan[k]));
    }
}

/// A plan is no longer than the list of dependencies.
pub proof fn lemma_plan_length(
    deps: Seq<DependencyView>,
    latest: Map<Seq<char>, SemVerView>,
    filters: Seq<Seq<char>>,
    rejects: Seq<Seq<char>>,
)
    ensures
        plan_spec(deps, latest, filters, rejects).len() <= deps.len(),
    decreases deps.len(),
{
    if deps.len() > 0 {
        lemma_plan_length(deps.drop_last(), latest, filters, rejects);
    }
}

/// A plan never holds two updates for the same name in the same section,
/// provided the dependencies it was made from do not.
pub proof fn lemma_plan_distinct(
    deps: Seq<DependencyView>,
    latest: Map<Seq<char>, SemVerView>,
    filters: Seq<Seq<char>>,
    rejects: Seq<Seq<char>>,
)
    requires
        distinct_dependencies(deps),
    ensures
        distinct_updates(plan_spec(deps, latest, filters, rejects)),
    decreases deps.len(),
{
    if deps.len() > 0 {
        let plan = plan_spec(deps, latest, filters, rejects);
        let init = deps.drop_last();
        let rest = plan_spec(init, latest, filters, rejects);
        assert forall|i: int, j: int| 0 <= i < j < init.len() implies !same_key(
            #[trigger] init[i],
            #[trigger] init[j],
        ) by {
            assert(init[i] == deps[i] && init[j] == deps[j]);
        }
        lemma_plan_distinct(init, latest, filters, rejects);
        assert forall|i: int, j: int| 0 <= i < j < plan.len() implies !same_key(
            (#[trigger] plan[i]).dependency,
            (#[trigger] plan[j]).dependency,
        ) by {
            if j < rest.len() {
                assert(plan[i] == rest[i] && plan[j] == rest[j]);
            } else {
                lemma_plan_members(init, latest, filters, rejects, i);
                let a = choose|a: int|
                    0 <= a < init.len() && candidate(
                        #[trigger] init[a],
                        latest,
                        filters,
                        rejects,
                    ) == Some(rest[i]);
                assert(init[a] == deps[a]);
                assert(plan[i] == rest[i]);
                assert(plan[j].dependency == deps[deps.len() - 1]);
                assert(!same_key(deps[a], deps[deps.len() - 1]));
            }
        }
    }
}

/// Planning is a function of its inputs: two plans that `compute_updates`
/// returns for the same dependencies, versions, filters and rejects are equal.
pub proof fn lemma_plan_deterministic(
    deps: Seq<DependencyView>,
    latest: Map<Seq<char>, SemVerView>,
    filters: Seq<Seq<char>>,
    rejects: Seq<Seq<char>>,
    first: Seq<UpdateView>,
    second: Seq<UpdateView>,
)
    requires
        first == plan_spec(deps, latest, filters, rejects),
        second == plan_spec(deps, latest, filters, rejects),
    ensures
        first == second,
{
}

} // verus!
