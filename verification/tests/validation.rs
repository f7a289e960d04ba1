use build_matrix::builder::{missing_required_settings, prepare_build_plan};
use build_matrix::config::{
    BuildSetting, BuildSettingOption, BuildSettingsConfig, RangeValidation, RawItem, RawValue,
    RawValueMap,
};
use build_matrix::models::BuildConfig;

fn option_of(value: &str, define: &str) -> BuildSettingOption {
    BuildSettingOption {
        label: value.to_string(),
        value: value.to_string(),
        define: Some(define.to_string()),
        description: None,
    }
}

fn range_setting(id: &str, min: i32, max: i32) -> BuildSetting {
    BuildSetting {
        id: id.to_string(),
        label: id.to_string(),
        value: "type".to_string(),
        description: String::new(),
        field_type: "range".to_string(),
        format: "number".to_string(),
        define: Some("DEVICE_TYPE".to_string()),
        options: None,
        validation: Some(RangeValidation { min, max }),
        exclusive: None,
        min_selected: None,
    }
}

fn select_setting(id: &str, options: Vec<BuildSettingOption>) -> BuildSetting {
    BuildSetting {
        id: id.to_string(),
        label: id.to_string(),
        value: "mode".to_string(),
        description: String::new(),
        field_type: "select".to_string(),
        format: "string".to_string(),
        define: None,
        options: Some(options),
        validation: None,
        exclusive: None,
        min_selected: None,
    }
}

fn checkbox_setting(id: &str, options: Vec<BuildSettingOption>, min_selected: Option<i32>) -> BuildSetting {
    BuildSetting {
        id: id.to_string(),
        label: id.to_string(),
        value: "lang".to_string(),
        description: String::new(),
        field_type: "checkbox_group".to_string(),
        format: "string[]".to_string(),
        define: None,
        options: Some(options),
        validation: None,
        exclusive: None,
        min_selected,
    }
}

fn schema_of(settings: Vec<BuildSetting>) -> BuildSettingsConfig {
    BuildSettingsConfig { version: "1.0".to_string(), build_settings: settings }
}

fn text(s: &str) -> RawValue {
    RawValue::Text(s.to_string())
}

fn list_of(items: Vec<&str>) -> RawValue {
    let mut v: Vec<RawItem> = Vec::new();
    for s in items {
        v.push(RawItem::Text(s.to_string()));
    }
    RawValue::List(v)
}

fn config_with(settings: RawValueMap) -> BuildConfig {
    BuildConfig {
        project_path: "/work/demo".to_string(),
        build_dir: "/work/out".to_string(),
        cube_ide_exe_path: "/opt/ide/bin".to_string(),
        workspace_path: "/work/ws".to_string(),
        project_name: Some("demo".to_string()),
        config_name: None,
        clean_build: true,
        custom_console_args: None,
        settings,
        cancelled: None,
    }
}

#[test]
fn empty_checkbox_with_floor_fails_validation_naming_the_setting() {
    let cfg = schema_of(vec![checkbox_setting("languages", vec![option_of("en", "LANG_EN")], Some(1))]);
    let err = cfg
        .validate_setting("languages", &list_of(vec![]))
        .unwrap_err();
    assert_eq!(err, "Too few selections for languages: 0. Minimum required: 1");
}

#[test]
fn empty_checkbox_with_floor_is_reported_missing_and_yields_no_plan() {
    let cfg = schema_of(vec![checkbox_setting("languages", vec![option_of("en", "LANG_EN")], Some(1))]);
    let mut values = RawValueMap::new();
    values.insert("languages".to_string(), list_of(vec![]));
    let missing = missing_required_settings(&cfg, &values);
    assert_eq!(missing, vec!["languages".to_string()]);
    // The per-setting check sees the supplied empty list first and
    // rejects the run before anything is expanded or launched.
    let config = config_with(values);
    let err = prepare_build_plan(&cfg, &config, "demo").unwrap_err();
    assert_eq!(err, "Too few selections for languages: 0. Minimum required: 1");
}

#[test]
fn absent_required_settings_fail_with_one_aggregated_error() {
    let cfg = schema_of(vec![
        checkbox_setting("languages", vec![option_of("en", "LANG_EN")], Some(1)),
        select_setting("device_mode", vec![option_of("GPIO", "DEVICE_MODE_GPIO")]),
    ]);
    let config = config_with(RawValueMap::new());
    let err = prepare_build_plan(&cfg, &config, "demo").unwrap_err();
    assert_eq!(
        err,
        "No values provided for required build parameters: languages, device_mode. \
         Please fill all required build settings."
    );
}

#[test]
fn select_value_outside_the_options_is_rejected_with_the_listing() {
    let cfg = schema_of(vec![select_setting("device_mode", vec![
        option_of("GPIO", "DEVICE_MODE_GPIO"),
        option_of("ADC_EXT", "DEVICE_MODE_ADC_EXT"),
    ])]);
    let err = cfg.validate_setting("device_mode", &text("UART")).unwrap_err();
    assert_eq!(
        err,
        "Invalid value 'UART' for device_mode. Valid options: [\"GPIO\", \"ADC_EXT\"]"
    );
}

#[test]
fn unknown_setting_id_is_rejected() {
    let cfg = schema_of(vec![range_setting("device_type", 4, 32)]);
    let err = cfg.validate_setting("nope", &text("4")).unwrap_err();
    assert_eq!(err, "Setting nope not found in configuration");
}

#[test]
fn range_value_of_the_wrong_shape_is_rejected() {
    let cfg = schema_of(vec![range_setting("device_type", 4, 32)]);
    let err = cfg
        .validate_setting("device_type", &list_of(vec!["4"]))
        .unwrap_err();
    assert_eq!(err, "Expected string for range setting device_type");
}

#[test]
fn range_with_no_included_value_is_rejected() {
    let cfg = schema_of(vec![range_setting("device_type", 4, 32)]);
    let err = cfg.validate_setting("device_type", &text(" , ")).unwrap_err();
    assert_eq!(err, "No values provided for range 'device_type'");
}

#[test]
fn range_bound_violation_propagates_the_parse_message() {
    let cfg = schema_of(vec![range_setting("device_type", 4, 32)]);
    let err = cfg.validate_setting("device_type", &text("2")).unwrap_err();
    assert_eq!(err, "Value 2 out of bounds [4, 32]");
}

#[test]
fn checkbox_value_outside_the_options_is_rejected() {
    let cfg = schema_of(vec![checkbox_setting("languages", vec![option_of("en", "LANG_EN")], Some(1))]);
    let err = cfg
        .validate_setting("languages", &list_of(vec!["en", "xx"]))
        .unwrap_err();
    assert_eq!(err, "Invalid value 'xx' for languages. Valid options: [\"en\"]");
}

#[test]
fn valid_values_pass_validation() {
    let cfg = schema_of(vec![
        range_setting("device_type", 4, 32),
        select_setting("device_mode", vec![option_of("GPIO", "DEVICE_MODE_GPIO")]),
        checkbox_setting("languages", vec![option_of("en", "LANG_EN")], Some(1)),
    ]);
    assert!(cfg.validate_setting("device_type", &text("4,7-9,12")).is_ok());
    assert!(cfg.validate_setting("device_mode", &text("GPIO")).is_ok());
    assert!(cfg.validate_setting("languages", &list_of(vec!["en"])).is_ok());
}

#[test]
fn blank_select_counts_as_missing() {
    let cfg = schema_of(vec![select_setting("device_mode", vec![option_of("GPIO", "DEVICE_MODE_GPIO")])]);
    let mut values = RawValueMap::new();
    values.insert("device_mode".to_string(), text("  "));
    let missing = missing_required_settings(&cfg, &values);
    assert_eq!(missing, vec!["device_mode".to_string()]);
}

#[test]
fn validation_error_aborts_the_plan_with_that_message() {
    let cfg = schema_of(vec![range_setting("device_type", 4, 32)]);
    let mut values = RawValueMap::new();
    values.insert("device_type".to_string(), text("99"));
    let config = config_with(values);
    let err = prepare_build_plan(&cfg, &config, "demo").unwrap_err();
    assert_eq!(err, "Value 99 out of bounds [4, 32]");
}
