use npm_updates::engine::{FetchEngine, FetchError};
use npm_updates::lookup::{build_lookups, Declared};
use npm_updates::queue::WorkQueue;
use npm_updates::registry::RegistryError;
use npm_updates::version::{InvalidVersionString, Pkg, PkgChange};

fn dep(name: &str, version: &str) -> Declared {
    Declared { name: name.to_string(), version: version.to_string() }
}

/// A registry that knows some packages and answers 500 for `broken-pkg`.
fn stub(pkg: &Pkg) -> Result<String, RegistryError> {
    match pkg.name.as_str() {
        "left-pad" => Ok("1.3.0".to_string()),
        "react" => Ok("18.2.0".to_string()),
        "lodash" => Ok("4.17.21".to_string()),
        "chalk" => Ok("5.3.0".to_string()),
        "broken-pkg" => Err(RegistryError::Status(500)),
        _ => Ok("1.0.0".to_string()),
    }
}

/// Serves the workers in turn until none of them gets a lookup any more.
fn drive(deps: &Vec<Declared>, concurrency: usize) -> Result<Vec<PkgChange>, FetchError> {
    let mut engine = FetchEngine::new(deps, concurrency)?;
    loop {
        let mut served = false;
        for w in 0..engine.concurrency() {
            if let Some(pkg) = engine.next_lookup(w) {
                served = true;
                engine.record(w, stub(&pkg));
            }
        }
        if !served {
            break;
        }
    }
    engine.finish()
}

fn as_set(changes: &Vec<PkgChange>) -> Vec<(String, String, Option<char>, String)> {
    let mut v: Vec<_> = changes
        .iter()
        .map(|c| (c.pkg.name.clone(), c.pkg.version.clone(), c.pkg.prefix, c.to.clone()))
        .collect();
    v.sort();
    v
}

fn sample() -> Vec<Declared> {
    vec![
        dep("left-pad", "^1.0.0"),
        dep("react", "18.2.0"),
        dep("lodash", "~4.17.20"),
        dep("internal-tool", "workspace:*"),
        dep("chalk", "^5.3.0"),
        dep("other", "0.9.0"),
        dep("from-git", "git+https://example.com/x.git"),
    ]
}

#[test]
fn lookups_leave_out_what_a_registry_cannot_resolve() {
    let pkgs = build_lookups(&sample()).unwrap();
    let names: Vec<&str> = pkgs.iter().map(|p| p.name.as_str()).collect();
    assert_eq!(names, vec!["left-pad", "react", "lodash", "chalk", "other"]);
    assert_eq!(pkgs[0].prefix, Some('^'));
    assert_eq!(pkgs[0].version, "1.0.0");
    assert_eq!(pkgs[1].prefix, None);
}

#[test]
fn lookups_of_an_empty_mapping_are_empty() {
    assert!(build_lookups(&vec![]).unwrap().is_empty());
}

#[test]
fn an_empty_version_string_is_refused() {
    let deps = vec![dep("a", "1.0.0"), dep("b", "")];
    assert_eq!(build_lookups(&deps).unwrap_err(), InvalidVersionString);
    assert_eq!(FetchEngine::new(&deps, 3).unwrap_err(), FetchError::InvalidVersionString);
}

#[test]
fn a_lone_prefix_is_left_out() {
    let deps = vec![dep("a", "^"), dep("b", "*")];
    assert!(build_lookups(&deps).unwrap().is_empty());
}

#[test]
fn zero_workers_are_refused() {
    assert_eq!(FetchEngine::new(&sample(), 0).unwrap_err(), FetchError::InvalidConcurrency);
    let bad = vec![dep("b", "")];
    assert_eq!(FetchEngine::new(&bad, 0).unwrap_err(), FetchError::InvalidConcurrency);
}

#[test]
fn a_change_is_recorded_exactly_when_the_versions_differ() {
    let changes = drive(&sample(), 3).unwrap();
    assert_eq!(
        as_set(&changes),
        vec![
            ("left-pad".to_string(), "1.0.0".to_string(), Some('^'), "1.3.0".to_string()),
            ("lodash".to_string(), "4.17.20".to_string(), Some('~'), "4.17.21".to_string()),
            ("other".to_string(), "0.9.0".to_string(), None, "1.0.0".to_string()),
        ]
    );
}

#[test]
fn one_worker_and_ten_workers_find_the_same_changes() {
    let one = drive(&sample(), 1).unwrap();
    let ten = drive(&sample(), 10).unwrap();
    assert_eq!(as_set(&one), as_set(&ten));
    assert_eq!(one.len(), 3);
}

#[test]
fn filtered_out_packages_are_never_looked_up() {
    let mut engine = FetchEngine::new(&sample(), 2).unwrap();
    let mut seen: Vec<String> = vec![];
    while let Some(pkg) = engine.next_lookup(0) {
        seen.push(pkg.name.clone());
        engine.record(0, stub(&pkg));
    }
    seen.sort();
    assert_eq!(seen, vec!["chalk", "left-pad", "lodash", "other", "react"]);
    let changes = engine.finish().unwrap();
    assert!(changes.iter().all(|c| c.pkg.name != "internal-tool" && c.pkg.name != "from-git"));
}

#[test]
fn left_pad_end_to_end_change_record() {
    let changes = drive(&vec![dep("left-pad", "^1.0.0")], 10).unwrap();
    assert_eq!(changes.len(), 1);
    assert_eq!(changes[0].pkg.name, "left-pad");
    assert_eq!(changes[0].pkg.version, "1.0.0");
    assert_eq!(changes[0].pkg.prefix, Some('^'));
    assert_eq!(changes[0].to, "1.3.0");
}

#[test]
fn workspace_reference_gives_no_lookup_and_no_change() {
    let mut engine = FetchEngine::new(&vec![dep("internal-tool", "workspace:*")], 10).unwrap();
    assert!(engine.is_empty());
    for w in 0..10 {
        assert!(engine.next_lookup(w).is_none());
    }
    assert!(engine.finish().unwrap().is_empty());
}

#[test]
fn a_failed_lookup_fails_the_run() {
    let deps = vec![dep("left-pad", "^1.0.0"), dep("broken-pkg", "1.0.0"), dep("lodash", "1.0.0")];
    assert_eq!(drive(&deps, 1).unwrap_err(), FetchError::FetchFailed);
    assert_eq!(drive(&deps, 2).unwrap_err(), FetchError::FetchFailed);
    assert_eq!(drive(&deps, 10).unwrap_err(), FetchError::FetchFailed);
}

#[test]
fn a_failed_worker_takes_no_more_lookups() {
    let deps = vec![dep("left-pad", "^1.0.0"), dep("broken-pkg", "1.0.0")];
    let mut engine = FetchEngine::new(&deps, 2).unwrap();
    let pkg = engine.next_lookup(0).unwrap();
    assert_eq!(pkg.name, "broken-pkg");
    assert!(!engine.record(0, Err(RegistryError::Status(500))));
    assert!(engine.has_failed());
    assert!(engine.next_lookup(0).is_none());
    let other = engine.next_lookup(1).unwrap();
    assert_eq!(other.name, "left-pad");
    assert!(engine.record(1, Ok("1.3.0".to_string())));
    assert!(engine.is_settled());
    assert_eq!(engine.finish().unwrap_err(), FetchError::FetchFailed);
}

#[test]
fn the_queue_hands_out_the_last_lookup_first() {
    let mut queue = WorkQueue::new(build_lookups(&sample()).unwrap());
    assert_eq!(queue.len(), 5);
    assert!(!queue.is_empty());
    let mut names = vec![];
    while let Some(p) = queue.try_pop() {
        names.push(p.name);
    }
    assert_eq!(names, vec!["other", "chalk", "lodash", "react", "left-pad"]);
    assert!(queue.is_empty());
    assert!(queue.try_pop().is_none());
    assert_eq!(queue.len(), 0);
}

#[test]
fn a_busy_worker_gets_no_second_lookup() {
    let mut engine = FetchEngine::new(&sample(), 2).unwrap();
    assert!(engine.next_lookup(0).is_some());
    assert!(engine.next_lookup(0).is_none());
    assert!(engine.next_lookup(2).is_none());
    assert!(engine.next_lookup(1).is_some());
    assert!(!engine.is_settled());
    assert_eq!(engine.finish().unwrap_err(), FetchError::StillRunning);
}

#[test]
fn an_answer_nobody_waits_for_changes_nothing() {
    let mut engine = FetchEngine::new(&vec![dep("left-pad", "^1.0.0")], 2).unwrap();
    assert!(!engine.record(0, Ok("9.9.9".to_string())));
    assert!(!engine.record(7, Ok("9.9.9".to_string())));
    assert!(!engine.record(1, Err(RegistryError::Transport)));
    assert!(!engine.has_failed());
    let pkg = engine.next_lookup(1).unwrap();
    assert!(engine.record(1, stub(&pkg)));
    let changes = engine.finish().unwrap();
    assert_eq!(changes.len(), 1);
    assert_eq!(changes[0].to, "1.3.0");
}

#[test]
fn changes_come_out_worker_by_worker() {
    let deps = vec![dep("a", "0.1.0"), dep("b", "0.2.0"), dep("c", "0.3.0")];
    let mut engine = FetchEngine::new(&deps, 2).unwrap();
    let c = engine.next_lookup(1).unwrap();
    let b = engine.next_lookup(0).unwrap();
    assert!(engine.record(0, Ok("2.0.0".to_string())));
    assert!(engine.record(1, Ok("3.0.0".to_string())));
    let a = engine.next_lookup(1).unwrap();
    assert!(engine.record(1, Ok("1.0.0".to_string())));
    assert_eq!((a.name.as_str(), b.name.as_str(), c.name.as_str()), ("a", "b", "c"));
    let names: Vec<String> = engine.finish().unwrap().iter().map(|c| c.pkg.name.clone()).collect();
    assert_eq!(names, vec!["b", "c", "a"]);
}
