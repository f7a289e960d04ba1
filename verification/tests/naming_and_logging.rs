use build_matrix::config::{BuildSetting, BuildSettingsConfig, RangeValidation};
use build_matrix::logging::{log_with_timestamp, should_log, LogLevel, Logger};
use build_matrix::naming::{expected_artifact_file_name, resolve_names};

fn token_setting(id: &str, token: &str) -> BuildSetting {
    BuildSetting {
        id: id.to_string(),
        label: id.to_string(),
        value: token.to_string(),
        description: String::new(),
        field_type: "range".to_string(),
        format: "number".to_string(),
        define: None,
        options: None,
        validation: Some(RangeValidation { min: 0, max: 99 }),
        exclusive: None,
        min_selected: None,
    }
}

fn schema_of(settings: Vec<BuildSetting>) -> BuildSettingsConfig {
    BuildSettingsConfig { version: "1.0".to_string(), build_settings: settings }
}

fn pair(id: &str, v: &str) -> (String, String) {
    (id.to_string(), v.to_string())
}

#[test]
fn naming_is_pure_in_all_four_inputs() {
    let cfg = schema_of(vec![token_setting("device_type", "type"), token_setting("device_mode", "mode")]);
    let combo = vec![pair("device_type", "12"), pair("device_mode", "GPIO")];
    let first = resolve_names("demoproject", &cfg, &combo, "Debug");
    let second = resolve_names("demoproject", &cfg, &combo, "Debug");
    assert_eq!(first, second);
}

#[test]
fn directory_name_prefixes_the_project_and_joins_pairs() {
    let cfg = schema_of(vec![token_setting("device_type", "type"), token_setting("device_mode", "mode")]);
    let combo = vec![pair("device_type", "12"), pair("device_mode", "GPIO")];
    let (dir, _) = resolve_names("demoproject", &cfg, &combo, "Debug");
    assert_eq!(dir, "demoproject_type_12_mode_GPIO");
}

#[test]
fn artifact_base_truncates_project_and_configuration() {
    let cfg = schema_of(vec![token_setting("device_type", "type"), token_setting("device_mode", "mode")]);
    let combo = vec![pair("device_type", "12"), pair("device_mode", "GPIO")];
    let (_, base) = resolve_names("demoproject", &cfg, &combo, "Release");
    assert_eq!(base, "demopr_type-12_mode-GPIO_Relea");
}

#[test]
fn short_project_and_configuration_names_are_kept_whole() {
    let cfg = schema_of(vec![token_setting("device_type", "type")]);
    let combo = vec![pair("device_type", "3")];
    let (dir, base) = resolve_names("app", &cfg, &combo, "Dbg");
    assert_eq!(dir, "app_type_3");
    assert_eq!(base, "app_type-3_Dbg");
}

#[test]
fn pairs_with_empty_values_stay_in_the_directory_but_not_the_artifact() {
    let cfg = schema_of(vec![token_setting("device_type", "type")]);
    let combo = vec![pair("device_type", "")];
    let (dir, base) = resolve_names("app", &cfg, &combo, "Debug");
    assert_eq!(dir, "app_type_");
    assert_eq!(base, "app_Debug");
}

#[test]
fn unknown_combination_ids_are_skipped_in_names() {
    let cfg = schema_of(vec![token_setting("device_type", "type")]);
    let combo = vec![pair("ghost", "1"), pair("device_type", "2")];
    let (dir, base) = resolve_names("app", &cfg, &combo, "Debug");
    assert_eq!(dir, "app_type_2");
    assert_eq!(base, "app_type-2_Debug");
}

#[test]
fn the_compiler_output_name_follows_the_lowercase_convention() {
    assert_eq!(expected_artifact_file_name("DemoBoard"), "demoboard.bin");
    assert_eq!(expected_artifact_file_name("already_lower"), "already_lower.bin");
}

#[test]
fn log_lines_carry_timestamp_and_level_tags() {
    let line = log_with_timestamp("2024-01-02 03:04:05", "hello", LogLevel::Info);
    assert_eq!(line, "[2024-01-02 03:04:05] [Info] hello");
    assert!(should_log(&LogLevel::Debug));
}

#[test]
fn logger_collects_lines_in_emission_order() {
    let mut logger = Logger::new();
    let first = logger.info("t1", "starting");
    let second = logger.error("t2", "boom");
    assert_eq!(first, "[t1] [Info] starting");
    assert_eq!(second, "[t2] [Error] boom");
    assert_eq!(logger.get_logs(), &vec![first.clone(), second.clone()]);
    let third = logger.warning("t3", "careful");
    let fourth = logger.debug("t4", "detail");
    assert_eq!(third, "[t3] [Warning] careful");
    assert_eq!(fourth, "[t4] [Debug] detail");
    assert_eq!(logger.get_logs().len(), 4);
}
