use cargo_check_updates::check::{CheckCommand, Step};
use cargo_check_updates::manifest::{Dependency, DependencySection};
use cargo_check_updates::pattern::{matches_any, pattern_matches, should_check};
use cargo_check_updates::planner::compute_updates;
use cargo_check_updates::registry::LatestVersions;
use cargo_check_updates::semantic::{SemVer, Severity};

fn strings(list: &[&str]) -> Vec<String> {
    list.iter().map(|s| s.to_string()).collect()
}

fn dep(name: &str, version: &str) -> Dependency {
    Dependency {
        name: name.to_string(),
        version: version.to_string(),
        section: DependencySection::Dependencies,
    }
}

fn known(list: &[(&str, SemVer)]) -> LatestVersions {
    let mut latest = LatestVersions::new();
    for (name, version) in list {
        latest.insert(name.to_string(), version.clone());
    }
    latest
}

fn names(plan: &[cargo_check_updates::planner::Update]) -> Vec<String> {
    plan.iter().map(|u| u.dependency.name.clone()).collect()
}

#[test]
fn pattern_without_star_is_the_name() {
    assert!(pattern_matches("serde", "serde"));
    assert!(!pattern_matches("serde", "serde_json"));
    assert!(!pattern_matches("serde_json", "serde"));
    assert!(!pattern_matches("", "serde"));
    assert!(pattern_matches("", ""));
}

#[test]
fn pattern_with_star_is_a_substring_test() {
    assert!(pattern_matches("serde*", "serde"));
    assert!(pattern_matches("serde*", "serde_json"));
    assert!(pattern_matches("serde*", "my_serde"));
    assert!(!pattern_matches("serde*", "tokio"));
    assert!(pattern_matches("*json", "serde_json"));
    assert!(pattern_matches("*", "anything"));
    assert!(pattern_matches("*", ""));
    assert!(pattern_matches("ser*de", "serde"));
    assert!(!pattern_matches("ser*de", "ser_de"));
    assert!(!pattern_matches("serde_json*", "serde"));
}

#[test]
fn matches_any_of_a_list() {
    assert!(matches_any(&strings(&["a", "b*"]), "abc"));
    assert!(matches_any(&strings(&["a", "b*"]), "a"));
    assert!(!matches_any(&strings(&["a", "b*"]), "c"));
    assert!(!matches_any(&strings(&[]), "c"));
}

#[test]
fn should_check_filters_then_rejects() {
    assert!(should_check(&strings(&[]), &strings(&[]), "tokio"));
    assert!(should_check(&strings(&["tok*"]), &strings(&[]), "tokio"));
    assert!(!should_check(&strings(&["serde"]), &strings(&[]), "tokio"));
    assert!(!should_check(&strings(&[]), &strings(&["tokio"]), "tokio"));
    assert!(!should_check(&strings(&["tok*"]), &strings(&["*io"]), "tokio"));
    assert!(should_check(&strings(&["tok*"]), &strings(&["serde"]), "tokio"));
}

#[test]
fn filter_selects_matching_dependencies() {
    let deps = vec![dep("serde", "1.0.0"), dep("serde_json", "1.0.0"), dep("tokio", "1.0.0")];
    let latest = known(&[
        ("serde", SemVer::new(1, 0, 200)),
        ("serde_json", SemVer::new(1, 1, 0)),
        ("tokio", SemVer::new(2, 0, 0)),
    ]);
    let plan = compute_updates(&deps, &latest, &strings(&["serde*"]), &strings(&[]));
    assert_eq!(names(&plan), strings(&["serde", "serde_json"]));
}

#[test]
fn reject_removes_matching_dependencies() {
    let deps = vec![dep("serde", "1.0.0"), dep("serde_json", "1.0.0"), dep("tokio", "1.0.0")];
    let latest = known(&[
        ("serde", SemVer::new(1, 0, 200)),
        ("serde_json", SemVer::new(1, 1, 0)),
        ("tokio", SemVer::new(2, 0, 0)),
    ]);
    let plan = compute_updates(&deps, &latest, &strings(&[]), &strings(&["serde"]));
    assert_eq!(names(&plan), strings(&["serde_json", "tokio"]));
    let plan = compute_updates(&deps, &latest, &strings(&["serde*"]), &strings(&["*json"]));
    assert_eq!(names(&plan), strings(&["serde"]));
}

#[test]
fn plan_holds_only_strictly_newer_versions() {
    let deps = vec![
        dep("older", "^1.2.3"),
        dep("same", "1.2.3"),
        dep("ahead", "2.0"),
        dep("unknown", "1.0.0"),
        dep("odd", "1.x"),
    ];
    let latest = known(&[
        ("older", SemVer::new(1, 2, 4)),
        ("same", SemVer::new(1, 2, 3)),
        ("ahead", SemVer::new(1, 9, 9)),
        ("odd", SemVer::new(9, 0, 0)),
    ]);
    let plan = compute_updates(&deps, &latest, &strings(&[]), &strings(&[]));
    assert_eq!(plan.len(), 1);
    assert_eq!(plan[0].dependency, dep("older", "^1.2.3"));
    assert_eq!(plan[0].current_version, SemVer::new(1, 2, 3));
    assert_eq!(plan[0].latest_version, SemVer::new(1, 2, 4));
    assert_eq!(plan[0].severity, Severity::Patch);
}

#[test]
fn plan_severities() {
    let deps = vec![dep("a", "1"), dep("b", "~1.1"), dep("c", ">=1.1.1")];
    let latest = known(&[
        ("a", SemVer::new(2, 0, 0)),
        ("b", SemVer::new(1, 2, 0)),
        ("c", SemVer::new(1, 1, 2)),
    ]);
    let plan = compute_updates(&deps, &latest, &strings(&[]), &strings(&[]));
    let severities: Vec<Severity> = plan.iter().map(|u| u.severity).collect();
    assert_eq!(severities, vec![Severity::Major, Severity::Minor, Severity::Patch]);
}

#[test]
fn planning_twice_gives_the_same_plan() {
    let deps = vec![dep("serde", "1.0.0"), dep("tokio", "^0.2"), dep("rand", "0.8")];
    let latest = known(&[
        ("serde", SemVer::new(1, 0, 200)),
        ("tokio", SemVer::new(1, 30, 0)),
        ("rand", SemVer::new(0, 8, 0)),
    ]);
    let filters = strings(&["*"]);
    let rejects = strings(&["rand"]);
    let first = compute_updates(&deps, &latest, &filters, &rejects);
    let second = compute_updates(&deps, &latest, &filters, &rejects);
    assert_eq!(first, second);
    assert_eq!(first.len(), 2);
}

#[test]
fn plan_of_nothing_is_empty() {
    let plan = compute_updates(&vec![], &LatestVersions::new(), &strings(&[]), &strings(&[]));
    assert!(plan.is_empty());
    let plan = compute_updates(
        &vec![dep("a", "1.0.0")],
        &LatestVersions::new(),
        &strings(&[]),
        &strings(&[]),
    );
    assert!(plan.is_empty());
}

#[test]
fn check_command_keeps_its_settings() {
    let cmd = CheckCommand::new(
        "Cargo.toml".to_string(),
        true,
        false,
        strings(&["serde*"]),
        strings(&["tokio"]),
    );
    assert_eq!(cmd.manifest_path, "Cargo.toml");
    assert!(cmd.upgrade);
    assert!(!cmd.interactive);
    assert_eq!(cmd.filter, strings(&["serde*"]));
    assert_eq!(cmd.reject, strings(&["tokio"]));
}

#[test]
fn check_command_applies_filter_and_reject() {
    let cmd = CheckCommand::new(
        "Cargo.toml".to_string(),
        false,
        false,
        strings(&["serde*"]),
        strings(&["serde_yaml"]),
    );
    assert!(cmd.should_check_dependency("serde"));
    assert!(cmd.should_check_dependency("serde_json"));
    assert!(!cmd.should_check_dependency("serde_yaml"));
    assert!(!cmd.should_check_dependency("tokio"));
    assert_eq!(cmd.strip_version_operator(" >=1.0 "), "1.0");
    assert_eq!(cmd.normalize_version("1.0"), "1.0.0");
    let deps = vec![dep("serde", "1"), dep("tokio", "1"), dep("serde_yaml", "1"), dep("serde", "2")];
    assert_eq!(cmd.names_to_query(&deps), strings(&["serde", "serde"]));
}

#[test]
fn check_command_decides_the_next_step() {
    let latest = known(&[("serde", SemVer::new(1, 0, 200))]);
    let show = CheckCommand::new("Cargo.toml".to_string(), false, false, vec![], vec![]);
    let write = CheckCommand::new("Cargo.toml".to_string(), true, false, vec![], vec![]);
    assert!(matches!(show.next_step(&vec![], &latest), Step::NoDependencies));
    assert!(matches!(write.next_step(&vec![], &latest), Step::NoDependencies));
    let current = vec![dep("serde", "1.0.200")];
    assert!(matches!(show.next_step(&current, &latest), Step::UpToDate));
    assert!(matches!(write.next_step(&current, &latest), Step::UpToDate));
    let outdated = vec![dep("serde", "1.0.100")];
    match show.next_step(&outdated, &latest) {
        Step::Suggest(plan) => assert_eq!(names(&plan), strings(&["serde"])),
        other => panic!("{:?}", other),
    }
    match write.next_step(&outdated, &latest) {
        Step::Upgrade(plan) => assert_eq!(names(&plan), strings(&["serde"])),
        other => panic!("{:?}", other),
    }
}
