use cargo_scout::cargo::Parser;
use cargo_scout::config::rust::CargoConfig;
use cargo_scout::config::Config as LibConfig;
use cargo_scout::project::cargo::Config;
use cargo_scout::project::Config as ProjectConfig;

const NEQO_TOML: &str = r#"[workspace]
        members = [
          "neqo-client",
          "neqo-common",
          "neqo-crypto",
          "neqo-http3",
          "neqo-http3-server",
          "neqo-qpack",
          "neqo-server",
          "neqo-transport",
          "neqo-interop",
          "test-fixture",
        ]"#;

fn neqo_members() -> Vec<&'static str> {
    vec![
        "neqo-client",
        "neqo-common",
        "neqo-crypto",
        "neqo-http3",
        "neqo-http3-server",
        "neqo-qpack",
        "neqo-server",
        "neqo-transport",
        "neqo-interop",
        "test-fixture",
    ]
}

#[test]
fn test_neqo_members_manifest() {
    let manifest = cargo_toml::Manifest::from_slice(NEQO_TOML.as_bytes()).unwrap();

    let parser = Parser::from_manifest(manifest);

    assert!(parser.is_workspace());
    assert_eq!(neqo_members(), parser.members);
}

#[test]
fn cargo_test_neqo_members_manifest() {
    let manifest = cargo_toml::Manifest::from_slice(NEQO_TOML.as_bytes()).unwrap();

    let mut project = Config::from_manifest(manifest);

    assert!(!project.linter_must_iterate());
    assert_eq!(neqo_members(), project.get_members());
    // Config must iterate if running in a workspace
    // With all features or no default features is enabled
    project.set_all_features(true);
    assert!(project.linter_must_iterate());
    project.set_no_default_features(true);
    assert!(project.linter_must_iterate());
    project.set_all_features(false);
    assert!(project.linter_must_iterate());
}

#[test]
fn rust_test_neqo_members_manifest() {
    let manifest = cargo_toml::Manifest::from_slice(NEQO_TOML.as_bytes()).unwrap();
    let config = CargoConfig::from_manifest(manifest);
    assert_eq!(neqo_members(), config.members());
}

#[test]
fn test_single_package_manifest() {
    let manifest = cargo_toml::Manifest::from_slice(
        br#"[package]
name = "demo"
version = "0.1.0"
"#,
    )
    .unwrap();
    let config = CargoConfig::from_manifest(manifest);
    // There is only one directory to lint, which is the current one.
    assert_eq!(vec!["."], config.members());

    let manifest2 = cargo_toml::Manifest::from_slice(
        br#"[package]
name = "demo"
version = "0.1.0"
"#,
    )
    .unwrap();
    let parser = Parser::from_manifest(manifest2);
    assert!(!parser.is_workspace());
    let no_members: Vec<String> = Vec::new();
    assert_eq!(no_members, parser.members);
}

#[test]
fn test_workspace_config_members_not_iterating_by_default() {
    let manifest = cargo_toml::Manifest::from_slice(NEQO_TOML.as_bytes()).unwrap();
    let project = Config::from_manifest(manifest);
    // Without a feature flag there is no reason to iterate.
    assert!(!project.linter_must_iterate());
    assert!(!project.no_default_features);
    assert!(!project.all_features);
}
