use npm_updates::registry::{
    latest_in_document, read_response, registry_url, RegistryError, DEFAULT_REGISTRY,
};

#[test]
fn the_url_is_host_and_package_name() {
    assert_eq!(registry_url(DEFAULT_REGISTRY, "left-pad"), "https://registry.npmjs.com/left-pad");
    assert_eq!(registry_url("npm.example.org", "@scope/pkg"), "https://npm.example.org/@scope/pkg");
}

#[test]
fn latest_is_read_from_dist_tags() {
    let body = r#"{"name": "left-pad", "dist-tags": {"next": "2.0.0-rc.1", "latest": "1.3.0"}, "versions": {}}"#;
    assert_eq!(read_response(200, body), Ok("1.3.0".to_string()));
    assert_eq!(read_response(299, body), Ok("1.3.0".to_string()));
}

#[test]
fn a_status_outside_2xx_is_an_error() {
    let body = r#"{"dist-tags": {"latest": "1.3.0"}}"#;
    assert_eq!(read_response(500, body), Err(RegistryError::Status(500)));
    assert_eq!(read_response(404, "{}"), Err(RegistryError::Status(404)));
    assert_eq!(read_response(199, body), Err(RegistryError::Status(199)));
    assert_eq!(read_response(300, body), Err(RegistryError::Status(300)));
}

#[test]
fn an_unexpected_body_is_an_error() {
    for body in [
        "",
        "not json",
        "{",
        "[]",
        "{}",
        r#"{"dist-tags": "1.3.0"}"#,
        r#"{"dist-tags": {}}"#,
        r#"{"dist-tags": {"latest": 1}}"#,
        r#"{"dist-tags": {"latest": null}}"#,
        r#"{"dist-tags": {"Latest": "1.3.0"}}"#,
        r#"{"dist_tags": {"latest": "1.3.0"}}"#,
        r#"{"dist-tags": ["1.3.0"]}"#,
    ] {
        assert_eq!(read_response(200, body), Err(RegistryError::Body));
    }
}

#[test]
fn latest_of_a_parsed_document() {
    let doc: serde_json::Value =
        serde_json::from_str(r#"{"a": 1, "dist-tags": {"latest": "0.0.7"}}"#).unwrap();
    assert_eq!(latest_in_document(&doc), Some("0.0.7".to_string()));
    let other: serde_json::Value = serde_json::from_str(r#"{"latest": "0.0.7"}"#).unwrap();
    assert_eq!(latest_in_document(&other), None);
}
