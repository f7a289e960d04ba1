use build_matrix::builder::{
    build_artifact_missing_msg, build_exit_error_msg, build_headless_args, build_spawn_error_msg,
    prepare_build_plan, RunAction, RunEvent, RunPhase, RunState,
};
use build_matrix::config::{
    BuildSetting, BuildSettingOption, BuildSettingsConfig, RangeValidation, RawValue, RawValueMap,
};
use build_matrix::models::BuildConfig;

fn option_of(value: &str, define: &str) -> BuildSettingOption {
    BuildSettingOption {
        label: value.to_string(),
        value: value.to_string(),
        define: Some(define.to_string()),
        description: None,
    }
}

fn schema() -> BuildSettingsConfig {
    BuildSettingsConfig {
        version: "1.0".to_string(),
        build_settings: vec![
            BuildSetting {
                id: "device_type".to_string(),
                label: "Device Type".to_string(),
                value: "type".to_string(),
                description: String::new(),
                field_type: "range".to_string(),
                format: "number".to_string(),
                define: Some("DEVICE_TYPE".to_string()),
                options: None,
                validation: Some(RangeValidation { min: 4, max: 32 }),
                exclusive: None,
                min_selected: None,
            },
            BuildSetting {
                id: "device_mode".to_string(),
                label: "Device Mode".to_string(),
                value: "mode".to_string(),
                description: String::new(),
                field_type: "select".to_string(),
                format: "string".to_string(),
                define: None,
                options: Some(vec![
                    option_of("GPIO", "DEVICE_MODE_GPIO"),
                    option_of("ADC_EXT", "DEVICE_MODE_ADC_EXT"),
                ]),
                validation: None,
                exclusive: None,
                min_selected: None,
            },
        ],
    }
}

fn build_config() -> BuildConfig {
    let mut values = RawValueMap::new();
    values.insert("device_type".to_string(), RawValue::Text("4,6".to_string()));
    values.insert("device_mode".to_string(), RawValue::Text("GPIO".to_string()));
    BuildConfig {
        project_path: "/work/demo".to_string(),
        build_dir: "/work/out".to_string(),
        cube_ide_exe_path: "/opt/ide/headless".to_string(),
        workspace_path: "/work/ws".to_string(),
        project_name: Some("demo".to_string()),
        config_name: Some("Release".to_string()),
        clean_build: true,
        custom_console_args: Some("-verbose  -extra arg".to_string()),
        settings: values,
        cancelled: None,
    }
}

#[test]
fn headless_args_follow_the_fixed_template() {
    let config = build_config();
    let args = build_headless_args("demo", &config);
    assert_eq!(
        args,
        vec![
            "-nosplash".to_string(),
            "-application".to_string(),
            "org.eclipse.cdt.managedbuilder.core.headlessbuild".to_string(),
            "-include".to_string(),
            "Inc/build_config.h".to_string(),
            "-cleanBuild".to_string(),
            "demo/Release".to_string(),
            "-data".to_string(),
            "/work/ws".to_string(),
            "-verbose".to_string(),
            "-extra".to_string(),
            "arg".to_string(),
        ]
    );
}

#[test]
fn incremental_build_without_configuration_uses_the_bare_target() {
    let mut config = build_config();
    config.clean_build = false;
    config.config_name = None;
    config.custom_console_args = None;
    let args = build_headless_args("demo", &config);
    assert_eq!(args[5], "-build");
    assert_eq!(args[6], "demo");
    assert_eq!(args.len(), 9);
}

#[test]
fn the_plan_carries_names_headers_and_args_per_combination() {
    let cfg = schema();
    let config = build_config();
    let plan = prepare_build_plan(&cfg, &config, "demo").unwrap();
    assert_eq!(plan.combos.len(), 2);
    let first = &plan.combos[0];
    assert_eq!(
        first.combination,
        vec![
            ("device_type".to_string(), "4".to_string()),
            ("device_mode".to_string(), "GPIO".to_string()),
        ]
    );
    assert_eq!(first.dir_name, "demo_type_4_mode_GPIO");
    assert_eq!(first.base_name, "demo_type-4_mode-GPIO_Relea");
    assert!(first.header.contains("#define DEVICE_TYPE 4\n"));
    assert!(first.header.contains("#define DEVICE_MODE_GPIO\n"));
    assert!(first.header.contains("#undef DEVICE_MODE_ADC_EXT\n"));
    let second = &plan.combos[1];
    assert_eq!(second.combination[0].1, "6");
    assert_eq!(plan.args.len(), 12);
}

#[test]
fn failure_reports_carry_the_combination_identity() {
    let combo = vec![
        ("device_type".to_string(), "4".to_string()),
        ("device_mode".to_string(), "GPIO".to_string()),
    ];
    assert_eq!(
        build_exit_error_msg(&combo, 2),
        "Build failed with exit code 2 for combination [device_type=4, device_mode=GPIO]"
    );
    assert_eq!(
        build_spawn_error_msg(&combo, "permission denied"),
        "Failed to start the build tool for combination [device_type=4, device_mode=GPIO]: \
         permission denied"
    );
    assert_eq!(
        build_artifact_missing_msg(&combo, "demo.bin"),
        "Error: output file 'demo.bin' missing or empty for combination \
         [device_type=4, device_mode=GPIO]"
    );
    let empty: Vec<(String, String)> = vec![];
    assert_eq!(
        build_exit_error_msg(&empty, -1),
        "Build failed with exit code -1 for combination []"
    );
}

#[test]
fn a_clean_run_walks_every_combination_to_completion() {
    let mut state = RunState::new();
    let action = state.step(RunEvent::PlanReady { total: 2 });
    assert!(matches!(action, RunAction::WriteHeader { idx: 0 }));
    assert!(matches!(state.step(RunEvent::PrepareDone { ok: true }), RunAction::Spawn { idx: 0 }));
    assert!(matches!(state.step(RunEvent::SpawnDone { ok: true }), RunAction::AwaitExit { idx: 0 }));
    assert!(matches!(
        state.step(RunEvent::ProcessExited { code: 0 }),
        RunAction::VerifyArtifact { idx: 0 }
    ));
    assert!(matches!(
        state.step(RunEvent::ArtifactChecked { ok: true }),
        RunAction::FinalizeCombo { idx: 0 }
    ));
    assert!(matches!(
        state.step(RunEvent::FinalizeDone { ok: true }),
        RunAction::WriteHeader { idx: 1 }
    ));
    assert!(matches!(state.step(RunEvent::PrepareDone { ok: true }), RunAction::Spawn { idx: 1 }));
    assert!(matches!(state.step(RunEvent::SpawnDone { ok: true }), RunAction::AwaitExit { idx: 1 }));
    assert!(matches!(
        state.step(RunEvent::ProcessExited { code: 0 }),
        RunAction::VerifyArtifact { idx: 1 }
    ));
    assert!(matches!(
        state.step(RunEvent::ArtifactChecked { ok: true }),
        RunAction::FinalizeCombo { idx: 1 }
    ));
    assert!(matches!(state.step(RunEvent::FinalizeDone { ok: true }), RunAction::Stop));
    assert_eq!(state.phase, RunPhase::Completed);
}

#[test]
fn cancellation_while_running_stops_the_run_without_success() {
    let mut state = RunState::new();
    state.step(RunEvent::PlanReady { total: 3 });
    state.step(RunEvent::PrepareDone { ok: true });
    state.step(RunEvent::SpawnDone { ok: true });
    assert_eq!(state.phase, RunPhase::Running { idx: 0 });
    let action = state.step(RunEvent::CancelRequested);
    assert!(matches!(action, RunAction::Stop));
    assert_eq!(state.phase, RunPhase::Cancelled);
    assert!(state.cancel_seen);
    // The cancelled phase is terminal: the run never reports completion.
    assert!(state.phase != RunPhase::Completed);
}

#[test]
fn cancellation_before_a_combination_starts_prevents_it() {
    let mut state = RunState::new();
    state.step(RunEvent::PlanReady { total: 1 });
    assert_eq!(state.phase, RunPhase::Preparing { idx: 0 });
    let action = state.step(RunEvent::CancelRequested);
    assert!(matches!(action, RunAction::Stop));
    assert_eq!(state.phase, RunPhase::Cancelled);
}

#[test]
fn a_rejected_plan_stops_the_run_before_any_launch() {
    let mut state = RunState::new();
    let action = state.step(RunEvent::PlanFailed);
    assert!(matches!(action, RunAction::Stop));
    assert_eq!(state.phase, RunPhase::Failed);
}

#[test]
fn a_failing_exit_code_fails_the_whole_run() {
    let mut state = RunState::new();
    state.step(RunEvent::PlanReady { total: 2 });
    state.step(RunEvent::PrepareDone { ok: true });
    state.step(RunEvent::SpawnDone { ok: true });
    let action = state.step(RunEvent::ProcessExited { code: 1 });
    assert!(matches!(action, RunAction::Stop));
    assert_eq!(state.phase, RunPhase::Failed);
}

#[test]
fn a_missing_artifact_fails_the_whole_run() {
    let mut state = RunState::new();
    state.step(RunEvent::PlanReady { total: 1 });
    state.step(RunEvent::PrepareDone { ok: true });
    state.step(RunEvent::SpawnDone { ok: true });
    state.step(RunEvent::ProcessExited { code: 0 });
    let action = state.step(RunEvent::ArtifactChecked { ok: false });
    assert!(matches!(action, RunAction::Stop));
    assert_eq!(state.phase, RunPhase::Failed);
}
