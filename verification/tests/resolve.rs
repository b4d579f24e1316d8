use bragi::plan::plan;
use bragi::settings::{Error, Settings, Sources};
use bragi::value::{Entry, Leaf, ResolvedConfig};

fn default_toml() -> String {
    [
        "mode = \"dev\"",
        "[logging]",
        "path = \"/tmp/logs\"",
        "[service]",
        "host = \"0.0.0.0\"",
        "port = 4000",
        "[elasticsearch]",
        "url = \"http://localhost:9200\"",
    ]
    .join("\n")
}

fn test_toml() -> String {
    ["mode = \"test\"", "[service]", "port = 5000"].join("\n")
}

fn mappings_json() -> String {
    "{\"elasticsearch\": {\"mappings\": {\"properties\": {\"name\": {\"type\": \"text\"}}}}}"
        .to_string()
}

fn settings_json() -> String {
    "{\"elasticsearch\": {\"settings\": {\"index\": {\"number_of_replicas\": 1}}}}".to_string()
}

fn full_sources() -> Sources {
    Sources {
        default_toml: Some(default_toml()),
        mode_toml: Some(test_toml()),
        mappings_json: Some(mappings_json()),
        settings_json: Some(settings_json()),
    }
}

#[test]
fn round_trip_all_fields() {
    let s = Settings::new(&full_sources(), &Vec::new()).expect("resolution succeeds");
    assert_eq!(s.mode, "test");
    assert_eq!(s.logging.path, "/tmp/logs");
    assert_eq!(s.elasticsearch.url, "http://localhost:9200");
    assert_eq!(s.service.host, "0.0.0.0");
    assert_eq!(s.service.port, 5000);
    assert_eq!(
        s.elasticsearch.settings.get("index.number_of_replicas"),
        Some(Leaf::Int(1))
    );
    assert_eq!(
        s.elasticsearch.mappings.get("properties.name.type"),
        Some(Leaf::Str("text".to_string()))
    );
}

#[test]
fn resolution_is_deterministic() {
    let a = Settings::new(&full_sources(), &Vec::new()).expect("resolution succeeds");
    let b = Settings::new(&full_sources(), &Vec::new()).expect("resolution succeeds");
    assert_eq!(a, b);
}

#[test]
fn mode_layer_wins_over_default() {
    let s = Settings::new(&full_sources(), &Vec::new()).expect("resolution succeeds");
    // default.toml sets service.port = 4000 and mode = "dev"; test.toml wins.
    assert_eq!(s.service.port, 5000);
    assert_eq!(s.mode, "test");
    // A key only the default layer sets survives the merge.
    assert_eq!(s.logging.path, "/tmp/logs");
}

#[test]
fn override_wins_over_files() {
    let overrides = vec!["service.port=6000".to_string(), "mode=canary".to_string()];
    let s = Settings::new(&full_sources(), &overrides).expect("resolution succeeds");
    assert_eq!(s.service.port, 6000);
    assert_eq!(s.mode, "canary");
}

#[test]
fn later_override_wins_over_earlier() {
    let overrides = vec!["service.port=6000".to_string(), "service.port=7000".to_string()];
    let s = Settings::new(&full_sources(), &overrides).expect("resolution succeeds");
    assert_eq!(s.service.port, 7000);
}

#[test]
fn missing_mode_file_is_config_merge() {
    let mut sources = full_sources();
    sources.mode_toml = None;
    let e = Settings::new(&sources, &Vec::new()).expect_err("resolution fails");
    assert!(matches!(e, Error::ConfigMerge { .. }));
}

#[test]
fn malformed_mode_file_is_config_merge() {
    let mut sources = full_sources();
    sources.mode_toml = Some("mode = ".to_string());
    let e = Settings::new(&sources, &Vec::new()).expect_err("resolution fails");
    assert!(matches!(e, Error::ConfigMerge { .. }));
}

#[test]
fn missing_default_layer_is_tolerated() {
    let sources = Sources {
        default_toml: None,
        mode_toml: Some(
            [
                "mode = \"test\"",
                "[logging]",
                "path = \"/tmp/logs\"",
                "[service]",
                "host = \"127.0.0.1\"",
                "port = 5000",
                "[elasticsearch]",
                "url = \"http://localhost:9200\"",
            ]
            .join("\n"),
        ),
        mappings_json: Some(mappings_json()),
        settings_json: Some(settings_json()),
    };
    let s = Settings::new(&sources, &Vec::new()).expect("resolution succeeds");
    assert_eq!(s.service.host, "127.0.0.1");
}

#[test]
fn malformed_default_layer_is_config_merge() {
    let mut sources = full_sources();
    sources.default_toml = Some("not toml [".to_string());
    let e = Settings::new(&sources, &Vec::new()).expect_err("resolution fails");
    assert!(matches!(e, Error::ConfigMerge { .. }));
}

#[test]
fn missing_required_field_is_config_extract() {
    let mut sources = full_sources();
    // Without the default layer the run-mode file lacks most fields.
    sources.default_toml = None;
    let e = Settings::new(&sources, &Vec::new()).expect_err("resolution fails");
    assert!(matches!(e, Error::ConfigExtract { .. }));
}

#[test]
fn wrong_port_shape_is_config_extract() {
    let overrides = vec!["service.port=high".to_string()];
    let e = Settings::new(&full_sources(), &overrides).expect_err("resolution fails");
    assert!(matches!(e, Error::ConfigExtract { .. }));
}

#[test]
fn out_of_range_port_is_config_extract() {
    let overrides = vec!["service.port=70000".to_string()];
    let e = Settings::new(&full_sources(), &overrides).expect_err("resolution fails");
    assert!(matches!(e, Error::ConfigExtract { .. }));
}

#[test]
fn malformed_override_is_reported() {
    let overrides = vec!["1,2".to_string()];
    let e = Settings::new(&full_sources(), &overrides).expect_err("resolution fails");
    assert!(matches!(e, Error::OverrideMalformed { .. }));
}

#[test]
fn double_equals_override_is_reported() {
    let overrides = vec!["a=b=c".to_string()];
    let e = Settings::new(&full_sources(), &overrides).expect_err("resolution fails");
    assert!(matches!(e, Error::OverrideMalformed { .. }));
}

#[test]
fn empty_mappings_object_still_counts_as_present() {
    let mut sources = full_sources();
    sources.mappings_json = Some("{\"elasticsearch\": {\"mappings\": {}}}".to_string());
    let s = Settings::new(&sources, &Vec::new()).expect("resolution succeeds");
    assert_eq!(s.elasticsearch.mappings.get(""), Some(Leaf::EmptyContainer));
}

#[test]
fn extract_error_names_the_offending_path() {
    let overrides = vec!["service.port=high".to_string()];
    let e = Settings::new(&full_sources(), &overrides).expect_err("resolution fails");
    assert!(e.message().contains("service.port"));
}

#[test]
fn tables_inside_arrays_flatten_under_indexed_paths() {
    let mut sources = full_sources();
    sources.mappings_json = Some(
        "{\"elasticsearch\": {\"mappings\": {\"fields\": [{\"type\": \"text\"}, {\"type\": \"keyword\"}]}}}"
            .to_string(),
    );
    let s = Settings::new(&sources, &Vec::new()).expect("resolution succeeds");
    assert_eq!(
        s.elasticsearch.mappings.get("fields.0.type"),
        Some(Leaf::Str("text".to_string()))
    );
    assert_eq!(
        s.elasticsearch.mappings.get("fields.1.type"),
        Some(Leaf::Str("keyword".to_string()))
    );
}

#[test]
fn error_messages_are_not_empty() {
    let e = Settings::new(
        &Sources { default_toml: None, mode_toml: None, mappings_json: None, settings_json: None },
        &Vec::new(),
    )
    .expect_err("resolution fails");
    assert!(!e.message().is_empty());
}

#[test]
fn env_run_mode_overrides_cli_argument() {
    let p = plan(Some("config"), Some("test"), Some("prod")).expect("planning succeeds");
    assert_eq!(p.run_mode, "test");
    assert_eq!(p.run_mode_path, "config/test.toml");
}

#[test]
fn empty_env_run_mode_falls_back_to_argument() {
    let p = plan(Some("config"), Some(""), Some("prod")).expect("planning succeeds");
    assert_eq!(p.run_mode, "prod");
    assert_eq!(p.run_mode_path, "config/prod.toml");
}

#[test]
fn planned_paths_follow_the_layout() {
    let p = plan(Some("etc/bragi"), None, Some("dev")).expect("planning succeeds");
    assert_eq!(p.default_path, "etc/bragi/default.toml");
    assert_eq!(p.run_mode_path, "etc/bragi/dev.toml");
    assert_eq!(p.mappings_path, "etc/bragi/elasticsearch/mappings.json");
    assert_eq!(p.settings_path, "etc/bragi/elasticsearch/settings.json");
}

#[test]
fn missing_config_dir_is_arg_missing() {
    let e = plan(None, Some("test"), None).expect_err("planning fails");
    assert!(matches!(e, Error::ArgMissing { .. }));
}

#[test]
fn empty_config_dir_is_arg_missing() {
    let e = plan(Some(""), Some("test"), None).expect_err("planning fails");
    assert!(matches!(e, Error::ArgMissing { .. }));
}

#[test]
fn no_run_mode_anywhere_is_missing_run_mode() {
    let e = plan(Some("config"), None, None).expect_err("planning fails");
    assert!(matches!(e, Error::MissingRunMode { .. }));
    let e = plan(Some("config"), Some(""), None).expect_err("planning fails");
    assert!(matches!(e, Error::MissingRunMode { .. }));
}

#[test]
fn set_path_replaces_a_whole_table() {
    let d = ResolvedConfig {
        entries: vec![
            Entry { path: "a.b".to_string(), value: Leaf::Int(1) },
            Entry { path: "c".to_string(), value: Leaf::Int(2) },
        ],
    };
    let d = d.set_path("a", Leaf::Str("flat".to_string()));
    assert_eq!(d.get("a.b"), None);
    assert_eq!(d.get("a"), Some(Leaf::Str("flat".to_string())));
    assert_eq!(d.get("c"), Some(Leaf::Int(2)));
}

#[test]
fn set_path_replaces_a_scalar_with_a_table_entry() {
    let d = ResolvedConfig {
        entries: vec![Entry { path: "a".to_string(), value: Leaf::Int(1) }],
    };
    let d = d.set_path("a.b", Leaf::Int(2));
    assert_eq!(d.get("a"), None);
    assert_eq!(d.get("a.b"), Some(Leaf::Int(2)));
}

#[test]
fn arrays_flatten_to_indexed_paths() {
    let mut sources = full_sources();
    sources.mappings_json =
        Some("{\"elasticsearch\": {\"mappings\": {\"fields\": [\"a\", \"b\"]}}}".to_string());
    let s = Settings::new(&sources, &Vec::new()).expect("resolution succeeds");
    assert_eq!(
        s.elasticsearch.mappings.get("fields.0"),
        Some(Leaf::Str("a".to_string()))
    );
    assert_eq!(
        s.elasticsearch.mappings.get("fields.1"),
        Some(Leaf::Str("b".to_string()))
    );
}
