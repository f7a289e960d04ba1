use build_matrix::build_combinations::{generate_build_combinations, resolve_candidates};
use build_matrix::config::{
    BuildSetting, BuildSettingOption, BuildSettingsConfig, RangeValidation, RawItem, RawValue,
    RawValueMap,
};

fn option_of(value: &str, define: &str) -> BuildSettingOption {
    BuildSettingOption {
        label: value.to_string(),
        value: value.to_string(),
        define: Some(define.to_string()),
        description: None,
    }
}

fn range_setting(id: &str, token: &str, define: &str, min: i32, max: i32) -> BuildSetting {
    BuildSetting {
        id: id.to_string(),
        label: id.to_string(),
        value: token.to_string(),
        description: String::new(),
        field_type: "range".to_string(),
        format: "number".to_string(),
        define: Some(define.to_string()),
        options: None,
        validation: Some(RangeValidation { min, max }),
        exclusive: None,
        min_selected: None,
    }
}

fn select_setting(id: &str, token: &str, options: Vec<BuildSettingOption>) -> BuildSetting {
    BuildSetting {
        id: id.to_string(),
        label: id.to_string(),
        value: token.to_string(),
        description: String::new(),
        field_type: "select".to_string(),
        format: "string".to_string(),
        define: None,
        options: Some(options),
        validation: None,
        exclusive: None,
        min_selected: None,
    }
}

fn checkbox_setting(
    id: &str,
    token: &str,
    options: Vec<BuildSettingOption>,
    min_selected: Option<i32>,
) -> BuildSetting {
    BuildSetting {
        id: id.to_string(),
        label: id.to_string(),
        value: token.to_string(),
        description: String::new(),
        field_type: "checkbox_group".to_string(),
        format: "string[]".to_string(),
        define: None,
        options: Some(options),
        validation: None,
        exclusive: None,
        min_selected,
    }
}

fn schema_of(settings: Vec<BuildSetting>) -> BuildSettingsConfig {
    BuildSettingsConfig { version: "1.0".to_string(), build_settings: settings }
}

fn text(s: &str) -> RawValue {
    RawValue::Text(s.to_string())
}

fn list_of(items: Vec<&str>) -> RawValue {
    let mut v: Vec<RawItem> = Vec::new();
    for s in items {
        v.push(RawItem::Text(s.to_string()));
    }
    RawValue::List(v)
}

#[test]
fn combination_count_is_the_product_of_candidate_counts() {
    let cfg = schema_of(vec![
        range_setting("device_type", "type", "DEVICE_TYPE", 4, 32),
        select_setting("device_mode", "mode", vec![
            option_of("GPIO", "DEVICE_MODE_GPIO"),
            option_of("ADC_EXT", "DEVICE_MODE_ADC_EXT"),
        ]),
        checkbox_setting("languages", "lang", vec![
            option_of("en", "LANG_EN"),
            option_of("hy", "LANG_HY"),
        ], Some(1)),
    ]);
    let mut values = RawValueMap::new();
    values.insert("device_type".to_string(), text("4,7-9,12"));
    values.insert("device_mode".to_string(), text("GPIO"));
    values.insert("languages".to_string(), list_of(vec!["en", "hy"]));
    let combos = generate_build_combinations(&cfg, &values);
    // 5 range values * 1 selected mode * 2 checkbox values
    assert_eq!(combos.len(), 10);
}

#[test]
fn empty_schema_yields_one_empty_combination() {
    let cfg = schema_of(vec![]);
    let values = RawValueMap::new();
    let combos = generate_build_combinations(&cfg, &values);
    assert_eq!(combos.len(), 1);
    assert!(combos[0].is_empty());
}

#[test]
fn optional_setting_without_values_contributes_no_pair() {
    let cfg = schema_of(vec![
        range_setting("device_type", "type", "DEVICE_TYPE", 1, 8),
        checkbox_setting("extras", "x", vec![option_of("a", "A")], None),
    ]);
    let mut values = RawValueMap::new();
    values.insert("device_type".to_string(), text("2"));
    let combos = generate_build_combinations(&cfg, &values);
    assert_eq!(combos.len(), 1);
    assert_eq!(combos[0], vec![("device_type".to_string(), "2".to_string())]);
}

#[test]
fn missing_select_collapses_the_product_to_zero() {
    let cfg = schema_of(vec![
        range_setting("device_type", "type", "DEVICE_TYPE", 1, 8),
        select_setting("device_mode", "mode", vec![option_of("GPIO", "DEVICE_MODE_GPIO")]),
    ]);
    let mut values = RawValueMap::new();
    values.insert("device_type".to_string(), text("2"));
    let combos = generate_build_combinations(&cfg, &values);
    assert_eq!(combos.len(), 0);
}

#[test]
fn combination_order_varies_later_settings_slowest() {
    let cfg = schema_of(vec![
        range_setting("n", "n", "N", 1, 9),
        checkbox_setting("c", "c", vec![option_of("a", "A"), option_of("b", "B")], Some(1)),
    ]);
    let mut values = RawValueMap::new();
    values.insert("n".to_string(), text("1,2"));
    values.insert("c".to_string(), list_of(vec!["a", "b"]));
    let combos = generate_build_combinations(&cfg, &values);
    let expected: Vec<Vec<(String, String)>> = vec![
        vec![("n".to_string(), "1".to_string()), ("c".to_string(), "a".to_string())],
        vec![("n".to_string(), "2".to_string()), ("c".to_string(), "a".to_string())],
        vec![("n".to_string(), "1".to_string()), ("c".to_string(), "b".to_string())],
        vec![("n".to_string(), "2".to_string()), ("c".to_string(), "b".to_string())],
    ];
    assert_eq!(combos, expected);
}

#[test]
fn range_candidates_come_out_ascending_as_strings() {
    let st = range_setting("device_type", "type", "DEVICE_TYPE", 4, 32);
    let mut values = RawValueMap::new();
    values.insert("device_type".to_string(), text("12,4,7-9"));
    let cands = resolve_candidates(&st, &values);
    assert_eq!(cands, vec!["4", "7", "8", "9", "12"]);
}

#[test]
fn malformed_range_yields_no_candidates() {
    let st = range_setting("device_type", "type", "DEVICE_TYPE", 4, 32);
    let mut values = RawValueMap::new();
    values.insert("device_type".to_string(), text("4,bogus"));
    let cands = resolve_candidates(&st, &values);
    assert!(cands.is_empty());
}

#[test]
fn checkbox_candidates_keep_order_and_drop_blanks() {
    let st = checkbox_setting("c", "c", vec![option_of("a", "A"), option_of("b", "B")], Some(1));
    let mut values = RawValueMap::new();
    values.insert("c".to_string(), list_of(vec!["b", "  ", "a", ""]));
    let cands = resolve_candidates(&st, &values);
    assert_eq!(cands, vec!["b", "a"]);
}
