use cargo_check_updates::error::CcuError;
use cargo_check_updates::registry::{
    aggregate, crate_url, latest_from_response, LatestVersions, Lookup,
};
use cargo_check_updates::semantic::SemVer;

fn lookup(name: &str, outcome: Result<SemVer, CcuError>) -> Lookup {
    Lookup { name: name.to_string(), outcome }
}

#[test]
fn url_of_a_package() {
    assert_eq!(crate_url("serde"), "https://crates.io/api/v1/crates/serde");
    assert_eq!(crate_url(""), "https://crates.io/api/v1/crates/");
}

#[test]
fn response_with_a_version() {
    assert_eq!(latest_from_response(true, Some("1.2.3")), Ok(SemVer::new(1, 2, 3)));
    assert_eq!(latest_from_response(true, Some("0.0.0")), Ok(SemVer::new(0, 0, 0)));
}

#[test]
fn response_with_further_identifiers() {
    assert_eq!(
        latest_from_response(true, Some("1.0.0-rc.1+build.5")),
        Ok(SemVer {
            major: 1,
            minor: 0,
            patch: 0,
            pre: "rc.1".to_string(),
            build: "build.5".to_string(),
        })
    );
    assert_eq!(
        latest_from_response(true, Some("1.0.0-rc.1+build.5")).unwrap().to_string(),
        "1.0.0-rc.1+build.5"
    );
}

#[test]
fn failed_request_is_a_registry_error() {
    assert_eq!(latest_from_response(false, Some("1.2.3")), Err(CcuError::RegistryError));
    assert_eq!(latest_from_response(false, None), Err(CcuError::RegistryError));
}

#[test]
fn malformed_answer_is_a_registry_error() {
    assert_eq!(latest_from_response(true, None), Err(CcuError::RegistryError));
    for text in ["", "1", "1.2", "abc", "1.2.3.4", "01.2.3", " 1.2.3", "1.2.3-"] {
        assert_eq!(latest_from_response(true, Some(text)), Err(CcuError::RegistryError));
    }
}

#[test]
fn failed_lookup_is_left_out() {
    let known = aggregate(vec![
        lookup("real-pkg", Ok(SemVer::new(1, 0, 0))),
        lookup("does-not-exist-xyz", Err(CcuError::RegistryError)),
    ]);
    assert_eq!(known.get("real-pkg"), Some(SemVer::new(1, 0, 0)));
    assert_eq!(known.get("does-not-exist-xyz"), None);
}

#[test]
fn failed_lookup_does_not_disturb_others() {
    let known = aggregate(vec![
        lookup("a", Err(CcuError::RegistryError)),
        lookup("b", Ok(SemVer::new(2, 0, 0))),
        lookup("c", Err(CcuError::RegistryError)),
        lookup("d", Ok(SemVer::new(4, 0, 0))),
        lookup("b", Err(CcuError::RegistryError)),
    ]);
    assert_eq!(known.get("a"), None);
    assert_eq!(known.get("b"), Some(SemVer::new(2, 0, 0)));
    assert_eq!(known.get("c"), None);
    assert_eq!(known.get("d"), Some(SemVer::new(4, 0, 0)));
}

#[test]
fn aggregate_of_nothing_knows_nothing() {
    assert_eq!(aggregate(vec![]).get("a"), None);
}

#[test]
fn later_success_replaces_earlier() {
    let known = aggregate(vec![
        lookup("a", Ok(SemVer::new(1, 0, 0))),
        lookup("a", Ok(SemVer::new(1, 1, 0))),
    ]);
    assert_eq!(known.get("a"), Some(SemVer::new(1, 1, 0)));
}

#[test]
fn insert_and_get() {
    let mut known = LatestVersions::new();
    assert_eq!(known.get("a"), None);
    known.insert("a".to_string(), SemVer::new(1, 0, 0));
    known.insert("b".to_string(), SemVer::new(2, 0, 0));
    assert_eq!(known.get("a"), Some(SemVer::new(1, 0, 0)));
    assert_eq!(known.get("b"), Some(SemVer::new(2, 0, 0)));
    known.insert("a".to_string(), SemVer::new(3, 0, 0));
    assert_eq!(known.get("a"), Some(SemVer::new(3, 0, 0)));
    assert_eq!(known.get("A"), None);
}

#[test]
fn record_takes_successes_only() {
    let mut known = LatestVersions::new();
    known.record(lookup("a", Ok(SemVer::new(1, 0, 0))));
    known.record(lookup("b", Err(CcuError::RegistryError)));
    known.record(lookup("a", Err(CcuError::RegistryError)));
    assert_eq!(known.get("a"), Some(SemVer::new(1, 0, 0)));
    assert_eq!(known.get("b"), None);
}
