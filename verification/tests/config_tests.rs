use photofinish::config::{
    check_config, config_content, extract_array, parse_scenarios, try_parse_scenarios,
};
use photofinish::toml_model::{parse_toml, ConfigError, TomlValue};

#[test]
fn parses_scenario_with_both_files_and_directories() {
    let scenarios = parse_scenarios(
        r#"
            [my-scenario]
            files = ["a.json", "b.json"]
            directories = ["some/dir"]
            "#
        .to_string(),
    );

    assert_eq!(scenarios.len(), 1);
    assert_eq!(scenarios[0].label, "my-scenario");
    assert_eq!(scenarios[0].files, vec!["a.json", "b.json"]);
    assert_eq!(scenarios[0].directories, vec!["some/dir"]);
}

#[test]
fn defaults_missing_files_key_to_empty_vec() {
    let scenarios = parse_scenarios(
        r#"
            [fixtures]
            directories = ["./fixtures/"]
            "#
        .to_string(),
    );

    assert_eq!(scenarios.len(), 1);
    assert!(scenarios[0].files.is_empty());
    assert_eq!(scenarios[0].directories, vec!["./fixtures/"]);
}

#[test]
fn defaults_missing_directories_key_to_empty_vec() {
    let scenarios = parse_scenarios(
        r#"
            [second-test-scenario]
            files = ["third file", "fourth-file"]
            "#
        .to_string(),
    );

    assert_eq!(scenarios.len(), 1);
    assert_eq!(scenarios[0].files, vec!["third file", "fourth-file"]);
    assert!(scenarios[0].directories.is_empty());
}

#[test]
fn extract_array_returns_the_matching_array() {
    let table = parse_toml(r#"files = ["a", "b"]"#).unwrap();
    assert_eq!(extract_array("files", &table), vec!["a", "b"]);
}

#[test]
fn extract_array_defaults_to_empty_when_label_missing() {
    let table = parse_toml(r#"directories = ["some/dir"]"#).unwrap();
    assert!(extract_array("files", &table).is_empty());
}

#[test]
fn extract_array_defaults_to_empty_when_value_is_not_an_array() {
    let table = parse_toml(r#"files = "not-an-array""#).unwrap();
    assert!(extract_array("files", &table).is_empty());
}

#[test]
fn extract_array_maps_non_string_entries_to_empty_string() {
    let table = parse_toml(r#"files = [1, "b"]"#).unwrap();
    assert_eq!(extract_array("files", &table), vec!["", "b"]);
}

#[test]
fn extract_array_maps_nested_arrays_and_tables_to_empty_strings() {
    let table = parse_toml(r#"files = [["x"], { y = "z" }, true, 2.5, "c"]"#).unwrap();
    assert_eq!(extract_array("files", &table), vec!["", "", "", "", "c"]);
}

#[test]
fn parse_toml_models_the_document() {
    let document = parse_toml("b = \"x\"\na = [1]\n[c]\nd = 4\n").unwrap();
    match document {
        TomlValue::Table(entries) => {
            let keys: Vec<&str> = entries.iter().map(|(k, _)| k.as_str()).collect();
            assert_eq!(keys, vec!["a", "b", "c"]);
            assert!(matches!(&entries[0].1, TomlValue::Array(items) if items.len() == 1 && matches!(items[0], TomlValue::Other)));
            assert!(matches!(&entries[1].1, TomlValue::Str(s) if s == "x"));
            assert!(matches!(&entries[2].1, TomlValue::Table(inner) if inner.len() == 1 && inner[0].0 == "d"));
        }
        other => panic!("expected a table, got {:?}", other),
    }
}

#[test]
fn parse_toml_rejects_invalid_text() {
    assert!(matches!(parse_toml("[unclosed"), Err(ConfigError::InvalidToml(_))));
}

#[test]
fn scenarios_come_out_in_ascending_label_order() {
    let scenarios = parse_scenarios(
        "[zeta]\nfiles = [\"z\"]\n[alpha]\nfiles = [\"a\"]\n[mid]\n".to_string(),
    );
    let labels: Vec<&str> = scenarios.iter().map(|s| s.label.as_str()).collect();
    assert_eq!(labels, vec!["alpha", "mid", "zeta"]);
    assert_eq!(scenarios[0].files, vec!["a"]);
    assert!(scenarios[1].files.is_empty());
    assert!(scenarios[1].directories.is_empty());
}

#[test]
fn readme_example_gives_two_scenarios() {
    let scenarios = parse_scenarios(
        r#"
[first-test-scenario]
files = [
  "../../test/fixtures/discovery/host/expected_published_host_discovery.json",
  "../../test/fixtures/discovery/sap_system/sap_system_discovery_application.json",
]
directories = ["target"]

[second-test-scenario]
files = [
  "third file",
  "fourth-file"
]
"#
        .to_string(),
    );
    assert_eq!(scenarios.len(), 2);
    assert_eq!(scenarios[0].label, "first-test-scenario");
    assert_eq!(scenarios[0].files.len(), 2);
    assert_eq!(scenarios[0].directories, vec!["target"]);
    assert_eq!(scenarios[1].label, "second-test-scenario");
    assert_eq!(scenarios[1].files, vec!["third file", "fourth-file"]);
}

#[test]
fn try_parse_reports_invalid_toml() {
    assert!(matches!(try_parse_scenarios("not toml [".to_string()), Err(ConfigError::InvalidToml(_))));
}

#[test]
fn try_parse_reports_a_section_that_is_not_a_table() {
    match try_parse_scenarios("bad = 3\n[ok]\nfiles = []\n".to_string()) {
        Err(ConfigError::SectionNotTable(label)) => assert_eq!(label, "bad"),
        other => panic!("expected SectionNotTable, got {:?}", other),
    }
}

#[test]
fn try_parse_accepts_an_empty_document() {
    assert!(try_parse_scenarios(String::new()).unwrap().is_empty());
}

#[test]
fn config_content_prefers_the_file() {
    assert_eq!(config_content(Some("a = 1".to_string()), "piped".to_string()), Some("a = 1".to_string()));
    assert_eq!(config_content(Some(String::new()), "piped".to_string()), Some(String::new()));
}

#[test]
fn config_content_falls_back_to_piped_input() {
    assert_eq!(config_content(None, "[s]".to_string()), Some("[s]".to_string()));
    assert_eq!(config_content(None, String::new()), None);
}

#[test]
fn check_config_tells_valid_and_invalid_texts() {
    assert!(check_config("[a]\nfiles = []\n").is_ok());
    assert!(check_config("").is_ok());
    assert!(matches!(check_config("[a"), Err(ConfigError::InvalidToml(_))));
    match check_config("files = [\"a\"]") {
        Err(ConfigError::SectionNotTable(label)) => assert_eq!(label, "files"),
        other => panic!("expected SectionNotTable, got {:?}", other),
    }
}
