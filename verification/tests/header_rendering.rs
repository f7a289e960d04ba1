use build_matrix::build_config_gen::generate_build_config_h;
use build_matrix::config::{
    BuildSetting, BuildSettingOption, BuildSettingsConfig, RangeValidation,
};

fn option_of(value: &str, define: &str) -> BuildSettingOption {
    BuildSettingOption {
        label: value.to_string(),
        value: value.to_string(),
        define: Some(define.to_string()),
        description: None,
    }
}

fn range_setting(id: &str, define: &str, min: i32, max: i32) -> BuildSetting {
    BuildSetting {
        id: id.to_string(),
        label: id.to_string(),
        value: "type".to_string(),
        description: String::new(),
        field_type: "range".to_string(),
        format: "number".to_string(),
        define: Some(define.to_string()),
        options: None,
        validation: Some(RangeValidation { min, max }),
        exclusive: None,
        min_selected: None,
    }
}

fn select_setting(id: &str, options: Vec<BuildSettingOption>) -> BuildSetting {
    BuildSetting {
        id: id.to_string(),
        label: id.to_string(),
        value: "mode".to_string(),
        description: String::new(),
        field_type: "select".to_string(),
        format: "string".to_string(),
        define: None,
        options: Some(options),
        validation: None,
        exclusive: None,
        min_selected: None,
    }
}

fn schema_of(settings: Vec<BuildSetting>) -> BuildSettingsConfig {
    BuildSettingsConfig { version: "1.0".to_string(), build_settings: settings }
}

fn pair(id: &str, v: &str) -> (String, String) {
    (id.to_string(), v.to_string())
}

#[test]
fn render_is_deterministic() {
    let cfg = schema_of(vec![
        range_setting("device_type", "DEVICE_TYPE", 4, 32),
        select_setting("device_mode", vec![
            option_of("GPIO", "DEVICE_MODE_GPIO"),
            option_of("ADC_EXT", "DEVICE_MODE_ADC_EXT"),
        ]),
    ]);
    let combo = vec![pair("device_type", "4,7-9,12"), pair("device_mode", "ADC_EXT")];
    let first = generate_build_config_h(&cfg, &combo).unwrap();
    let second = generate_build_config_h(&cfg, &combo).unwrap();
    assert_eq!(first, second);
}

#[test]
fn range_define_carries_the_maximum_of_the_expansion() {
    let cfg = schema_of(vec![range_setting("device_type", "DEVICE_TYPE", 4, 32)]);
    let combo = vec![pair("device_type", "4,7-9,12")];
    let header = generate_build_config_h(&cfg, &combo).unwrap();
    assert!(header.contains("#ifndef DEVICE_TYPE\n#define DEVICE_TYPE 12\n#endif\n"));
}

#[test]
fn selected_option_is_defined_and_the_other_undefined() {
    let cfg = schema_of(vec![select_setting("device_mode", vec![
        option_of("GPIO", "DEVICE_MODE_GPIO"),
        option_of("ADC_EXT", "DEVICE_MODE_ADC_EXT"),
    ])]);
    let combo = vec![pair("device_mode", "ADC_EXT")];
    let header = generate_build_config_h(&cfg, &combo).unwrap();
    assert!(header.contains("#define DEVICE_MODE_ADC_EXT\n"));
    assert!(header.contains("#undef DEVICE_MODE_GPIO\n"));
}

#[test]
fn header_is_byte_exact_for_a_small_schema() {
    let cfg = schema_of(vec![
        range_setting("device_type", "DEVICE_TYPE", 4, 32),
        select_setting("device_mode", vec![
            option_of("GPIO", "DEVICE_MODE_GPIO"),
            option_of("ADC_EXT", "DEVICE_MODE_ADC_EXT"),
        ]),
    ]);
    let combo = vec![pair("device_type", "4,7-9,12"), pair("device_mode", "ADC_EXT")];
    let header = generate_build_config_h(&cfg, &combo).unwrap();
    let expected = "#ifndef BUILD_CONFIG_H_\n#define BUILD_CONFIG_H_\n\n\
        #ifndef DEVICE_TYPE\n#define DEVICE_TYPE 12\n#endif\n\
        #undef DEVICE_MODE_GPIO\n#define DEVICE_MODE_ADC_EXT\n\
        #undef DEBUG_SET\n\n#endif // BUILD_CONFIG_H_\n";
    assert_eq!(header, expected);
}

#[test]
fn unset_optional_range_emits_nothing_for_that_setting() {
    let cfg = schema_of(vec![range_setting("device_type", "DEVICE_TYPE", 4, 32)]);
    let combo: Vec<(String, String)> = vec![];
    let header = generate_build_config_h(&cfg, &combo).unwrap();
    assert!(!header.contains("DEVICE_TYPE"));
    assert!(header.starts_with("#ifndef BUILD_CONFIG_H_\n"));
    assert!(header.ends_with("\n#endif // BUILD_CONFIG_H_\n"));
}

#[test]
fn options_without_symbols_emit_nothing() {
    let mut opt = option_of("GPIO", "X");
    opt.define = None;
    let cfg = schema_of(vec![select_setting("device_mode", vec![opt])]);
    let combo = vec![pair("device_mode", "GPIO")];
    let header = generate_build_config_h(&cfg, &combo).unwrap();
    let expected = "#ifndef BUILD_CONFIG_H_\n#define BUILD_CONFIG_H_\n\n\
        #undef DEBUG_SET\n\n#endif // BUILD_CONFIG_H_\n";
    assert_eq!(header, expected);
}
