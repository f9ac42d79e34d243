use npm_updates::engine::FetchError;
use npm_updates::fetch::fetch_changes;
use npm_updates::lookup::Declared;
use npm_updates::registry::{read_response, RegistryError};
use npm_updates::report::changes_str;
use npm_updates::manifest::replace_deps;
use npm_updates::version::{Pkg, PkgChange};
use std::cell::RefCell;

fn entry(name: &str, version: &str) -> Declared {
    Declared { name: name.to_string(), version: version.to_string() }
}

/// A registry that answers from canned responses, as the real one would.
fn canned(pkg: &Pkg) -> Result<String, RegistryError> {
    match pkg.name.as_str() {
        "left-pad" => read_response(200, r#"{"dist-tags": {"latest": "1.3.0"}}"#),
        "react" => read_response(200, r#"{"dist-tags": {"latest": "18.2.0"}}"#),
        "lodash" => read_response(200, r#"{"dist-tags": {"latest": "4.17.21"}}"#),
        "broken-pkg" => read_response(500, "Internal Server Error"),
        "garbled" => read_response(200, "<html>"),
        "unreachable" => Err(RegistryError::Transport),
        _ => read_response(404, r#"{"error": "Not found"}"#),
    }
}

fn sorted(changes: &Vec<PkgChange>) -> Vec<(String, Option<char>, String, String)> {
    let mut v: Vec<_> = changes
        .iter()
        .map(|c| (c.pkg.name.clone(), c.pkg.prefix, c.pkg.version.clone(), c.to.clone()))
        .collect();
    v.sort();
    v
}

#[test]
fn end_to_end_left_pad() {
    let deps = vec![entry("left-pad", "^1.0.0")];
    let changes = fetch_changes(&deps, 10, canned).unwrap();
    assert_eq!(changes.len(), 1);
    assert_eq!(changes[0].pkg.name, "left-pad");
    assert_eq!(changes[0].pkg.version, "1.0.0");
    assert_eq!(changes[0].pkg.prefix, Some('^'));
    assert_eq!(changes[0].to, "1.3.0");
    assert_eq!(changes_str(&changes), "left-pad: ^1.0.0 => ^1.3.0\n");
    let patched = replace_deps(r#"{"dependencies": {"left-pad": "^1.0.0"}}"#, &changes).unwrap();
    assert_eq!(patched, "{\n  \"dependencies\": {\n    \"left-pad\": \"^1.3.0\"\n  }\n}");
}

#[test]
fn end_to_end_workspace_reference() {
    let asked = RefCell::new(0);
    let deps = vec![entry("internal-tool", "workspace:*")];
    let changes = fetch_changes(&deps, 10, |pkg: &Pkg| {
        *asked.borrow_mut() += 1;
        canned(pkg)
    })
    .unwrap();
    assert_eq!(*asked.borrow(), 0);
    assert!(changes.is_empty());
    assert_eq!(changes_str(&changes), "");
    let manifest = "{\n  \"dependencies\": {\n    \"internal-tool\": \"workspace:*\"\n  }\n}";
    assert_eq!(replace_deps(manifest, &changes).unwrap(), manifest);
}

#[test]
fn end_to_end_broken_package() {
    let deps = vec![entry("broken-pkg", "1.0.0")];
    assert_eq!(fetch_changes(&deps, 10, canned).unwrap_err(), FetchError::FetchFailed);
    let mixed = vec![entry("left-pad", "^1.0.0"), entry("broken-pkg", "1.0.0"), entry("react", "17.0.0")];
    for concurrency in [1, 2, 3, 10] {
        assert_eq!(fetch_changes(&mixed, concurrency, canned).unwrap_err(), FetchError::FetchFailed);
    }
}

#[test]
fn every_kind_of_registry_error_fails_the_run() {
    for name in ["garbled", "unreachable", "unknown"] {
        let deps = vec![entry("left-pad", "^1.0.0"), entry(name, "1.0.0")];
        assert_eq!(fetch_changes(&deps, 4, canned).unwrap_err(), FetchError::FetchFailed);
    }
}

#[test]
fn the_other_mapping_is_not_affected_by_a_failed_run() {
    let deps = vec![entry("broken-pkg", "1.0.0")];
    let dev_deps = vec![entry("left-pad", "^1.0.0")];
    assert!(fetch_changes(&deps, 10, canned).is_err());
    assert_eq!(fetch_changes(&dev_deps, 10, canned).unwrap().len(), 1);
}

#[test]
fn concurrency_does_not_change_the_change_set() {
    let deps = vec![
        entry("left-pad", "^1.0.0"),
        entry("react", "18.2.0"),
        entry("lodash", "~4.17.20"),
        entry("internal-tool", "workspace:*"),
        entry("react", "^17.0.2"),
    ];
    let one = fetch_changes(&deps, 1, canned).unwrap();
    let ten = fetch_changes(&deps, 10, canned).unwrap();
    assert_eq!(sorted(&one), sorted(&ten));
    assert_eq!(
        sorted(&one),
        vec![
            ("left-pad".to_string(), Some('^'), "1.0.0".to_string(), "1.3.0".to_string()),
            ("lodash".to_string(), Some('~'), "4.17.20".to_string(), "4.17.21".to_string()),
            ("react".to_string(), Some('^'), "17.0.2".to_string(), "18.2.0".to_string()),
        ]
    );
    for concurrency in 2..8 {
        assert_eq!(sorted(&fetch_changes(&deps, concurrency, canned).unwrap()), sorted(&one));
    }
}

#[test]
fn each_lookup_is_asked_exactly_once() {
    let asked: RefCell<Vec<String>> = RefCell::new(vec![]);
    let deps = vec![
        entry("left-pad", "^1.0.0"),
        entry("from-url", "https://example.com/a.tgz"),
        entry("react", "18.2.0"),
        entry("lodash", "~4.17.20"),
        entry("star", "*"),
    ];
    fetch_changes(&deps, 2, |pkg: &Pkg| {
        asked.borrow_mut().push(pkg.name.clone());
        canned(pkg)
    })
    .unwrap();
    let mut names = asked.into_inner();
    names.sort();
    assert_eq!(names, vec!["left-pad", "lodash", "react"]);
}

#[test]
fn equal_versions_give_no_change() {
    let deps = vec![entry("react", "^18.2.0"), entry("lodash", "4.17.21")];
    assert!(fetch_changes(&deps, 3, canned).unwrap().is_empty());
}

#[test]
fn a_run_needs_at_least_one_worker() {
    let deps = vec![entry("left-pad", "^1.0.0")];
    assert_eq!(fetch_changes(&deps, 0, canned).unwrap_err(), FetchError::InvalidConcurrency);
    assert_eq!(fetch_changes(&vec![], 0, canned).unwrap_err(), FetchError::InvalidConcurrency);
}

#[test]
fn an_empty_version_fails_before_any_lookup() {
    let asked = RefCell::new(0);
    let deps = vec![entry("left-pad", "^1.0.0"), entry("odd", "")];
    let r = fetch_changes(&deps, 2, |pkg: &Pkg| {
        *asked.borrow_mut() += 1;
        canned(pkg)
    });
    assert_eq!(r.unwrap_err(), FetchError::InvalidVersionString);
    assert_eq!(*asked.borrow(), 0);
}

#[test]
fn an_empty_mapping_gives_an_empty_change_set() {
    assert!(fetch_changes(&vec![], 10, canned).unwrap().is_empty());
}

#[test]
fn each_package_has_one_change_at_most() {
    let deps = vec![
        entry("left-pad", "^1.0.0"),
        entry("react", "^17.0.2"),
        entry("lodash", "~4.17.20"),
    ];
    for concurrency in 1..6 {
        let changes = fetch_changes(&deps, concurrency, canned).unwrap();
        let mut names: Vec<&str> = changes.iter().map(|c| c.pkg.name.as_str()).collect();
        names.sort();
        assert_eq!(names, vec!["left-pad", "lodash", "react"]);
        assert!(changes.iter().all(|c| c.to != c.pkg.version));
    }
}
