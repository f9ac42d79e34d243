use npm_updates::manifest::{find_change, is_section_key, patch_document, replace_deps, ManifestError};
use npm_updates::version::{Pkg, PkgChange};
use serde_json::Value;

fn change(name: &str, declared: &str, to: &str) -> PkgChange {
    PkgChange { to: to.to_string(), pkg: Pkg::parse(name.to_string(), declared).unwrap() }
}

fn json(text: &str) -> Value {
    serde_json::from_str(text).unwrap()
}

const MANIFEST: &str = r#"{
  "name": "demo",
  "version": "0.0.1",
  "scripts": { "left-pad": "echo left-pad", "build": "tsc" },
  "dependencies": { "react": "18.2.0", "left-pad": "^1.0.0", "internal-tool": "workspace:*" },
  "keywords": ["left-pad", 1, 2.5, null, true],
  "devDependencies": { "typescript": "~5.0.0", "left-pad": "^1.0.0" },
  "overrides": { "left-pad": { "nested": "1.0.0" }, "chalk": "5.0.0" },
  "left-pad": "^1.0.0"
}"#;

#[test]
fn left_pad_is_rewritten_with_its_prefix() {
    let doc = json(r#"{"dependencies": {"left-pad": "^1.0.0"}}"#);
    let out = patch_document(doc, &vec![change("left-pad", "^1.0.0", "1.3.0")]).unwrap();
    assert_eq!(out, json(r#"{"dependencies": {"left-pad": "^1.3.0"}}"#));
}

#[test]
fn an_empty_change_set_leaves_the_document_alone() {
    let doc = json(r#"{"dependencies": {"internal-tool": "workspace:*"}}"#);
    let out = patch_document(doc.clone(), &vec![]).unwrap();
    assert_eq!(out, doc);
    assert_eq!(patch_document(json(MANIFEST), &vec![]).unwrap(), json(MANIFEST));
}

#[test]
fn all_three_sections_are_rewritten_and_nothing_else() {
    let changes = vec![change("left-pad", "^1.0.0", "1.3.0"), change("typescript", "~5.0.0", "5.4.2")];
    let out = patch_document(json(MANIFEST), &changes).unwrap();
    let expected = json(
        r#"{
  "name": "demo",
  "version": "0.0.1",
  "scripts": { "left-pad": "echo left-pad", "build": "tsc" },
  "dependencies": { "react": "18.2.0", "left-pad": "^1.3.0", "internal-tool": "workspace:*" },
  "keywords": ["left-pad", 1, 2.5, null, true],
  "devDependencies": { "typescript": "~5.4.2", "left-pad": "^1.3.0" },
  "overrides": { "left-pad": "^1.3.0", "chalk": "5.0.0" },
  "left-pad": "^1.0.0"
}"#,
    );
    assert_eq!(out, expected);
}

#[test]
fn the_order_of_fields_and_members_survives() {
    let changes = vec![change("left-pad", "^1.0.0", "1.3.0")];
    let out = patch_document(json(MANIFEST), &changes).unwrap();
    let top: Vec<&str> = out.as_object().unwrap().keys().map(|k| k.as_str()).collect();
    assert_eq!(
        top,
        vec![
            "name",
            "version",
            "scripts",
            "dependencies",
            "keywords",
            "devDependencies",
            "overrides",
            "left-pad"
        ]
    );
    let deps: Vec<&str> =
        out["dependencies"].as_object().unwrap().keys().map(|k| k.as_str()).collect();
    assert_eq!(deps, vec!["react", "left-pad", "internal-tool"]);
}

#[test]
fn rewriting_twice_is_rewriting_once() {
    let changes = vec![change("left-pad", "^1.0.0", "1.3.0"), change("chalk", "5.0.0", "5.3.0")];
    let once = patch_document(json(MANIFEST), &changes).unwrap();
    let twice = patch_document(once.clone(), &changes).unwrap();
    assert_eq!(once, twice);
}

#[test]
fn keys_that_no_change_names_keep_their_values() {
    let changes = vec![change("left-pad", "^1.0.0", "1.3.0")];
    let before = json(MANIFEST);
    let after = patch_document(before.clone(), &changes).unwrap();
    for key in ["name", "version", "scripts", "keywords", "left-pad"] {
        assert_eq!(after[key], before[key]);
    }
    assert_eq!(after["dependencies"]["react"], before["dependencies"]["react"]);
    assert_eq!(after["dependencies"]["internal-tool"], before["dependencies"]["internal-tool"]);
    assert_eq!(after["devDependencies"]["typescript"], before["devDependencies"]["typescript"]);
    assert_eq!(after["overrides"]["chalk"], before["overrides"]["chalk"]);
}

#[test]
fn a_document_without_sections_is_no_error() {
    let changes = vec![change("left-pad", "^1.0.0", "1.3.0")];
    for text in [r#"{"name": "demo", "left-pad": "^1.0.0"}"#, "{}", "[1, 2]", "null", "\"dependencies\"", "7"] {
        assert_eq!(patch_document(json(text), &changes).unwrap(), json(text));
    }
}

#[test]
fn no_section_is_added() {
    let out = patch_document(json(r#"{"dependencies": {}}"#), &vec![change("a", "1.0.0", "2.0.0")]).unwrap();
    assert_eq!(out.as_object().unwrap().len(), 1);
    assert_eq!(out, json(r#"{"dependencies": {}}"#));
}

#[test]
fn a_section_that_is_no_object_is_malformed() {
    let changes = vec![change("left-pad", "^1.0.0", "1.3.0")];
    for text in [
        r#"{"dependencies": "left-pad"}"#,
        r#"{"dependencies": {"left-pad": "^1.0.0"}, "devDependencies": ["left-pad"]}"#,
        r#"{"overrides": null}"#,
        r#"{"devDependencies": 3}"#,
    ] {
        assert_eq!(patch_document(json(text), &changes).unwrap_err(), ManifestError::MalformedManifest);
        assert_eq!(patch_document(json(text), &vec![]).unwrap_err(), ManifestError::MalformedManifest);
    }
}

#[test]
fn the_last_change_for_a_name_decides() {
    let changes = vec![change("a", "^1.0.0", "1.1.0"), change("b", "1.0.0", "3.0.0"), change("a", "~1.0.0", "1.2.0")];
    let out = patch_document(json(r#"{"dependencies": {"a": "^1.0.0", "b": "1.0.0"}}"#), &changes).unwrap();
    assert_eq!(out, json(r#"{"dependencies": {"a": "~1.2.0", "b": "3.0.0"}}"#));
    assert_eq!(find_change(&changes, &"a".to_string()), Some(2));
    assert_eq!(find_change(&changes, &"b".to_string()), Some(1));
    assert_eq!(find_change(&changes, &"c".to_string()), None);
    assert_eq!(find_change(&vec![], &"a".to_string()), None);
}

#[test]
fn section_names_are_exact() {
    for key in ["dependencies", "devDependencies", "overrides"] {
        assert!(is_section_key(&key.to_string()));
    }
    for key in ["Dependencies", "devdependencies", "peerDependencies", "override", "", "dependencies "] {
        assert!(!is_section_key(&key.to_string()));
    }
}

#[test]
fn manifest_text_is_rewritten_and_pretty_printed() {
    let text = r#"{"name":"demo","dependencies":{"left-pad":"^1.0.0","react":"18.2.0"},"private":true}"#;
    let out = replace_deps(text, &vec![change("left-pad", "^1.0.0", "1.3.0")]).unwrap();
    let expected = "{\n  \"name\": \"demo\",\n  \"dependencies\": {\n    \"left-pad\": \"^1.3.0\",\n    \"react\": \"18.2.0\"\n  },\n  \"private\": true\n}";
    assert_eq!(out, expected);
}

#[test]
fn manifest_text_that_is_no_json_is_refused() {
    let changes = vec![change("left-pad", "^1.0.0", "1.3.0")];
    assert_eq!(replace_deps("{\"dependencies\": ", &changes).unwrap_err(), ManifestError::NotJson);
    assert_eq!(replace_deps("", &changes).unwrap_err(), ManifestError::NotJson);
    assert_eq!(
        replace_deps(r#"{"dependencies": []}"#, &changes).unwrap_err(),
        ManifestError::MalformedManifest
    );
}

#[test]
fn rewriting_text_twice_is_rewriting_it_once() {
    let changes = vec![change("left-pad", "^1.0.0", "1.3.0"), change("typescript", "~5.0.0", "5.4.2")];
    let once = replace_deps(MANIFEST, &changes).unwrap();
    let twice = replace_deps(&once, &changes).unwrap();
    assert_eq!(once, twice);
    assert!(once.contains("\"left-pad\": \"^1.3.0\""));
    assert!(once.contains("\"typescript\": \"~5.4.2\""));
}
