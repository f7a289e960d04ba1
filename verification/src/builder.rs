//! Orchestration of one build run.
//!
//! The pure half of the orchestrator lives here, fully verified: the
//! aggregated required-setting check, the external tool's argument
//! vector, the per-combination build plan (names, header text), and the
//! run state machine that sequences the combinations and races them
//! against cancellation. The surrounding process, file and window work
//! stays outside the library and drives the machine by events.

use vstd::prelude::*;

use crate::build_combinations::{
    candidates_spec, combos_spec, generate_build_combinations, resolve_candidates,
};
use crate::build_config_gen::{generate_build_config_h, header_spec};
use crate::config::{
    lookup_raw, validate_outcome, BuildSetting, BuildSettingsConfig, RawValue, RawValueMap,
};
use crate::models::BuildConfig;
use crate::naming::{base_name_spec, dir_name_spec, resolve_names};
use crate::strnum::{int_str, split_whitespace_owned, split_ws_spec, str_eq, trim, trim_spec};

verus! {

/// The candidate floor a setting demands: a `select` always wants one
/// value; any other setting wants its positive `min_selected`, if any.
pub open spec fn required_floor(st: BuildSetting) -> int {
    if st.field_type@ == "select"@ {
        1
    } else {
        match st.min_selected {
            Some(m) => if m > 0 {
                m as int
            } else {
                0
            },
            None => 0,
        }
    }
}

/// How many values the caller effectively supplied for a setting: for a
/// `select`, one when the supplied string is non-blank; for the others,
/// the resolved candidate count.
pub open spec fn supplied_count(st: BuildSetting, entries: Seq<(String, RawValue)>) -> int {
    if st.field_type@ == "select"@ {
        match lookup_raw(entries, st.id@) {
            Some(RawValue::Text(s)) => if trim_spec(s@).len() > 0 {
                1
            } else {
                0
            },
            _ => 0,
        }
    } else {
        candidates_spec(st, entries).len() as int
    }
}

/// The ids of the settings whose supplied count is below their floor,
/// in schema order.
pub open spec fn missing_ids_spec(
    settings: Seq<BuildSetting>,
    entries: Seq<(String, RawValue)>,
) -> Seq<Seq<char>>
    decreases settings.len(),
{
    if settings.len() == 0 {
        Seq::<Seq<char>>::empty()
    } else {
        missing_ids_spec(settings.drop_last(), entries) + (if supplied_count(
            settings.last(),
            entries,
        ) < required_floor(settings.last()) {
            seq![settings.last().id@]
        } else {
            Seq::<Seq<char>>::empty()
        })
    }
}

/// Collects the ids of every required setting that the supplied values
/// leave below its floor. A non-empty result aborts the run before any
/// combination is expanded.
pub fn missing_required_settings(cfg: &BuildSettingsConfig, values: &RawValueMap) -> (r: Vec<
    String,
>)
    ensures
        r.deep_view() == missing_ids_spec(cfg.build_settings@, values.entries@),
{
    let mut out: Vec<String> = Vec::new();
    let n = cfg.build_settings.len();
    let mut i: usize = 0;
    proof {
        assert(cfg.build_settings@.subrange(0, 0) =~= Seq::<BuildSetting>::empty());
        assert(out.deep_view() =~= missing_ids_spec(
            cfg.build_settings@.subrange(0, 0),
            values.entries@,
        ));
    }
    while i < n
        invariant
            0 <= i <= n,
            n == cfg.build_settings@.len(),
            out.deep_view() =~= missing_ids_spec(
                cfg.build_settings@.subrange(0, i as int),
                values.entries@,
            ),
        decreases n - i,
    {
        let st = &cfg.build_settings[i];
        proof {
            assert(cfg.build_settings@.subrange(0, i as int + 1).drop_last()
                =~= cfg.build_settings@.subrange(0, i as int));
            assert(cfg.build_settings@.subrange(0, i as int + 1).last()
                == cfg.build_settings@[i as int]);
        }
        let count: usize = if str_eq(st.field_type.as_str(), "select") {
            match values.get(st.id.as_str()) {
                Some(rv) => match rv {
                    RawValue::Text(s) => {
                        let t = trim(s.as_str());
                        if t.unicode_len() > 0 {
                            1
                        } else {
                            0
                        }
                    },
                    _ => 0,
                },
                None => 0,
            }
        } else {
            let cands = resolve_candidates(st, values);
            proof {
                assert(cands@.len() == cands.deep_view().len());
            }
            cands.len()
        };
        proof {
            assert(count as int == supplied_count(*st, values.entries@));
        }
        let floor: i32 = if str_eq(st.field_type.as_str(), "select") {
            1
        } else {
            match st.min_selected {
                Some(m) => if m > 0 {
                    m
                } else {
                    0
                },
                None => 0,
            }
        };
        if floor > 0 && count < (floor as usize) {
            out.push(st.id.clone());
        }
        proof {
            assert(out.deep_view() =~= missing_ids_spec(
                cfg.build_settings@.subrange(0, i as int + 1),
                values.entries@,
            ));
        }
        i = i + 1;
    }
    proof {
        assert(cfg.build_settings@.subrange(0, n as int) =~= cfg.build_settings@);
    }
    out
}

/// The ids joined with `", "`.
pub open spec fn join_comma(ids: Seq<Seq<char>>) -> Seq<char>
    decreases ids.len(),
{
    if ids.len() == 0 {
        Seq::<char>::empty()
    } else if ids.len() == 1 {
        ids[0]
    } else {
        join_comma(ids.drop_last()) + ", "@ + ids.last()
    }
}

/// The aggregated error naming every missing required setting.
pub open spec fn missing_msg(ids: Seq<Seq<char>>) -> Seq<char> {
    "No values provided for required build parameters: "@ + join_comma(ids)
        + ". Please fill all required build settings."@
}

/// The error for a run that expanded to no combination at all.
pub open spec fn no_combos_msg() -> Seq<char> {
    "No build combinations generated. This usually means at least one build parameter has no values. Check settings_values and build_settings."@
}

fn build_missing_msg(ids: &Vec<String>) -> (r: String)
    ensures
        r@ == missing_msg(ids.deep_view()),
{
    let mut m = String::new();
    m.append("No values provided for required build parameters: ");
    let n = ids.len();
    let mut i: usize = 0;
    proof {
        assert(ids.deep_view().subrange(0, 0) =~= Seq::<Seq<char>>::empty());
        assert(m@ =~= "No values provided for required build parameters: "@ + join_comma(
            ids.deep_view().subrange(0, 0),
        ));
    }
    while i < n
        invariant
            0 <= i <= n,
            n == ids@.len(),
            m@ == "No values provided for required build parameters: "@ + join_comma(
                ids.deep_view().subrange(0, i as int),
            ),
        decreases n - i,
    {
        proof {
            assert(ids.deep_view().subrange(0, i as int + 1).drop_last() =~= ids.deep_view()
                .subrange(0, i as int));
            assert(ids.deep_view().subrange(0, i as int + 1).last() == ids.deep_view()[i as int]);
            assert(ids.deep_view().subrange(0, i as int + 1)[0] == ids.deep_view()[0]);
        }
        if i > 0 {
            m.append(", ");
        }
        m.append(ids[i].as_str());
        proof {
            assert(m@ =~= "No values provided for required build parameters: "@ + join_comma(
                ids.deep_view().subrange(0, i as int + 1),
            ));
        }
        i = i + 1;
    }
    proof {
        assert(ids.deep_view().subrange(0, n as int) =~= ids.deep_view());
    }
    m.append(". Please fill all required build settings.");
    proof {
        assert(m@ =~= missing_msg(ids.deep_view()));
    }
    m
}

/// The build target handed to the external tool: the project name, with
/// the configuration appended after a slash when one was chosen.
pub open spec fn build_target_spec(project: Seq<char>, config_name: Option<String>) -> Seq<char> {
    match config_name {
        Some(c) => project + "/"@ + c@,
        None => project,
    }
}

/// The argument vector of one external tool invocation: the fixed
/// headless-build flags, the generated header include, the clean or
/// incremental flag, the target, the workspace, and the caller's extra
/// arguments split on whitespace.
pub open spec fn headless_args_spec(project: Seq<char>, config: BuildConfig) -> Seq<Seq<char>> {
    seq![
        "-nosplash"@,
        "-application"@,
        "org.eclipse.cdt.managedbuilder.core.headlessbuild"@,
        "-include"@,
        "Inc/build_config.h"@,
        if config.clean_build {
            "-cleanBuild"@
        } else {
            "-build"@
        },
        build_target_spec(project, config.config_name),
        "-data"@,
        config.workspace_path@,
    ] + (match config.custom_console_args {
        Some(s) => split_ws_spec(s@),
        None => Seq::<Seq<char>>::empty(),
    })
}

/// Assembles the external tool's argument vector for this run.
pub fn build_headless_args(project_name: &str, config: &BuildConfig) -> (r: Vec<String>)
    ensures
        r.deep_view() == headless_args_spec(project_name@, *config),
{
    let mut args: Vec<String> = Vec::new();
    args.push("-nosplash".to_owned());
    args.push("-application".to_owned());
    args.push("org.eclipse.cdt.managedbuilder.core.headlessbuild".to_owned());
    args.push("-include".to_owned());
    args.push("Inc/build_config.h".to_owned());
    if config.clean_build {
        args.push("-cleanBuild".to_owned());
    } else {
        args.push("-build".to_owned());
    }
    let mut target = String::new();
    target.append(project_name);
    match &config.config_name {
        Some(c) => {
            target.append("/");
            target.append(c.as_str());
            proof {
                assert(target@ =~= build_target_spec(project_name@, config.config_name));
            }
        },
        None => {
            proof {
                assert(target@ =~= build_target_spec(project_name@, config.config_name));
            }
        },
    }
    args.push(target);
    args.push("-data".to_owned());
    args.push(config.workspace_path.clone());
    let ghost fixed = args.deep_view();
    proof {
        assert(fixed =~= seq![
            "-nosplash"@,
            "-application"@,
            "org.eclipse.cdt.managedbuilder.core.headlessbuild"@,
            "-include"@,
            "Inc/build_config.h"@,
            if config.clean_build {
                "-cleanBuild"@
            } else {
                "-build"@
            },
            build_target_spec(project_name@, config.config_name),
            "-data"@,
            config.workspace_path@,
        ]);
    }
    match &config.custom_console_args {
        Some(s) => {
            let extra = split_whitespace_owned(s.as_str());
            let n = extra.len();
            let mut i: usize = 0;
            proof {
                assert(extra.deep_view().subrange(0, 0) =~= Seq::<Seq<char>>::empty());
                assert(args.deep_view() =~= fixed + extra.deep_view().subrange(0, 0));
            }
            while i < n
                invariant
                    0 <= i <= n,
                    n == extra@.len(),
                    args.deep_view() =~= fixed + extra.deep_view().subrange(0, i as int),
                decreases n - i,
            {
                let ghost olda = args.deep_view();
                let ghost oldv = args@;
                let item = extra[i].clone();
                proof {
                    assert(item == extra@[i as int]);
                    assert(olda.len() == oldv.len());
                }
                args.push(item);
                proof {
                    assert(args@ == oldv.push(item));
                    assert forall|k: int|
                        0 <= k < args.deep_view().len() implies #[trigger] args.deep_view()[k] == (
                    fixed + extra.deep_view().subrange(0, i as int + 1))[k] by {
                        if k < oldv.len() {
                            assert(args@[k] == oldv[k]);
                            assert(args.deep_view()[k] == oldv[k].deep_view());
                            assert(olda[k] == oldv[k].deep_view());
                        } else {
                            assert(args@[k] == item);
                        }
                    }
                    assert(args.deep_view() =~= fixed + extra.deep_view().subrange(
                        0,
                        i as int + 1,
                    ));
                }
                i = i + 1;
            }
            proof {
                assert(extra.deep_view().subrange(0, n as int) =~= extra.deep_view());
                assert(args.deep_view() =~= headless_args_spec(project_name@, *config));
            }
        },
        None => {
            proof {
                assert(args.deep_view() =~= headless_args_spec(project_name@, *config));
            }
        },
    }
    args
}

/// The pairs of one combination written out as `id=value`, comma
/// separated, for the identity that failure reports carry.
pub open spec fn combo_ident_inner(comb: Seq<(Seq<char>, Seq<char>)>) -> Seq<char>
    decreases comb.len(),
{
    if comb.len() == 0 {
        Seq::<char>::empty()
    } else if comb.len() == 1 {
        comb[0].0 + "="@ + comb[0].1
    } else {
        combo_ident_inner(comb.drop_last()) + ", "@ + comb.last().0 + "="@ + comb.last().1
    }
}

/// The bracketed identity of one combination.
pub open spec fn combo_ident(comb: Seq<(Seq<char>, Seq<char>)>) -> Seq<char> {
    "["@ + combo_ident_inner(comb) + "]"@
}

/// Writes out one combination's identity for a failure report.
pub fn build_combo_ident(combination: &[(String, String)]) -> (r: String)
    ensures
        r@ == combo_ident(combination.deep_view()),
{
    let mut m = String::new();
    m.append("[");
    let n = combination.len();
    let mut i: usize = 0;
    let ghost comb = combination.deep_view();
    proof {
        assert(comb.subrange(0, 0) =~= Seq::<(Seq<char>, Seq<char>)>::empty());
        assert(m@ =~= "["@ + combo_ident_inner(comb.subrange(0, 0)));
    }
    while i < n
        invariant
            0 <= i <= n,
            n == combination@.len(),
            comb == combination.deep_view(),
            m@ == "["@ + combo_ident_inner(comb.subrange(0, i as int)),
        decreases n - i,
    {
        proof {
            assert(comb.subrange(0, i as int + 1).drop_last() =~= comb.subrange(0, i as int));
            assert(comb.subrange(0, i as int + 1).last() == comb[i as int]);
            assert(comb.subrange(0, i as int + 1)[0] == comb[0]);
        }
        if i > 0 {
            m.append(", ");
        }
        let pair = &combination[i];
        m.append(pair.0.as_str());
        m.append("=");
        m.append(pair.1.as_str());
        proof {
            assert(m@ =~= "["@ + combo_ident_inner(comb.subrange(0, i as int + 1)));
        }
        i = i + 1;
    }
    proof {
        assert(comb.subrange(0, n as int) =~= comb);
    }
    m.append("]");
    proof {
        assert(m@ =~= combo_ident(comb));
    }
    m
}

/// The report for a combination whose external tool could not be
/// launched, with the launcher's own error text appended.
pub open spec fn spawn_error_msg(comb: Seq<(Seq<char>, Seq<char>)>, detail: Seq<char>) -> Seq<
    char,
> {
    "Failed to start the build tool for combination "@ + combo_ident(comb) + ": "@ + detail
}

/// Builds the launch-failure report for one combination.
pub fn build_spawn_error_msg(combination: &[(String, String)], detail: &str) -> (r: String)
    ensures
        r@ == spawn_error_msg(combination.deep_view(), detail@),
{
    let mut m = String::new();
    m.append("Failed to start the build tool for combination ");
    let ident = build_combo_ident(combination);
    m.append(ident.as_str());
    m.append(": ");
    m.append(detail);
    proof {
        assert(m@ =~= spawn_error_msg(combination.deep_view(), detail@));
    }
    m
}

/// The report for a combination whose external tool exited non-zero.
pub open spec fn exit_error_msg(comb: Seq<(Seq<char>, Seq<char>)>, code: int) -> Seq<char> {
    "Build failed with exit code "@ + int_str(code) + " for combination "@ + combo_ident(comb)
}

/// Builds the non-zero-exit report for one combination.
pub fn build_exit_error_msg(combination: &[(String, String)], code: i32) -> (r: String)
    ensures
        r@ == exit_error_msg(combination.deep_view(), code as int),
{
    let mut m = String::new();
    m.append("Build failed with exit code ");
    let c = crate::strnum::i32_to_string(code);
    m.append(c.as_str());
    m.append(" for combination ");
    let ident = build_combo_ident(combination);
    m.append(ident.as_str());
    proof {
        assert(m@ =~= exit_error_msg(combination.deep_view(), code as int));
    }
    m
}

/// The report for a combination whose expected binary is absent or
/// empty after a nominally successful exit.
pub open spec fn artifact_missing_msg(
    comb: Seq<(Seq<char>, Seq<char>)>,
    file: Seq<char>,
) -> Seq<char> {
    "Error: output file '"@ + file + "' missing or empty for combination "@ + combo_ident(comb)
}

/// Builds the missing-artifact report for one combination.
pub fn build_artifact_missing_msg(combination: &[(String, String)], file_name: &str) -> (r: String)
    ensures
        r@ == artifact_missing_msg(combination.deep_view(), file_name@),
{
    let mut m = String::new();
    m.append("Error: output file '");
    m.append(file_name);
    m.append("' missing or empty for combination ");
    let ident = build_combo_ident(combination);
    m.append(ident.as_str());
    proof {
        assert(m@ =~= artifact_missing_msg(combination.deep_view(), file_name@));
    }
    m
}

/// The first validation failure among the supplied values, checked per
/// setting in schema order; settings without a supplied value are
/// passed over here (the missing-required check catches them).
pub open spec fn first_validation_error(
    settings: Seq<BuildSetting>,
    cfg: BuildSettingsConfig,
    entries: Seq<(String, RawValue)>,
) -> Option<Seq<char>>
    decreases settings.len(),
{
    if settings.len() == 0 {
        None
    } else {
        let pre = first_validation_error(settings.drop_last(), cfg, entries);
        if pre is Some {
            pre
        } else {
            match lookup_raw(entries, settings.last().id@) {
                Some(v) => validate_outcome(cfg, settings.last().id@, v),
                None => None,
            }
        }
    }
}

proof fn lemma_validation_error_extends(
    settings: Seq<BuildSetting>,
    cfg: BuildSettingsConfig,
    entries: Seq<(String, RawValue)>,
    k: int,
)
    requires
        0 <= k <= settings.len(),
        first_validation_error(settings.subrange(0, k), cfg, entries) is Some,
    ensures
        first_validation_error(settings, cfg, entries) == first_validation_error(
            settings.subrange(0, k),
            cfg,
            entries,
        ),
    decreases settings.len(),
{
    if k == settings.len() {
        assert(settings.subrange(0, k) =~= settings);
    } else {
        assert(settings.drop_last().subrange(0, k) =~= settings.subrange(0, k));
        lemma_validation_error_extends(settings.drop_last(), cfg, entries, k);
    }
}

/// Why a run aborts before its first subprocess, if it does: the first
/// per-setting validation failure, else the aggregated missing-required
/// error, else the empty-expansion error.
pub open spec fn plan_error_spec(
    cfg: BuildSettingsConfig,
    entries: Seq<(String, RawValue)>,
) -> Option<Seq<char>> {
    match first_validation_error(cfg.build_settings@, cfg, entries) {
        Some(m) => Some(m),
        None => {
            let missing = missing_ids_spec(cfg.build_settings@, entries);
            if missing.len() > 0 {
                Some(missing_msg(missing))
            } else if combos_spec(cfg, entries).len() == 0 {
                Some(no_combos_msg())
            } else {
                None
            }
        },
    }
}

/// One combination's share of the plan: the pairs themselves, the two
/// resolved names, and the rendered header text.
#[derive(Debug)]
pub struct ComboPlan {
    pub combination: Vec<(String, String)>,
    pub dir_name: String,
    pub base_name: String,
    pub header: String,
}

/// Everything the run will do, computed before anything is spawned.
#[derive(Debug)]
pub struct BuildPlan {
    pub combos: Vec<ComboPlan>,
    pub args: Vec<String>,
}

/// The configuration name a run builds with: the chosen one, else the
/// default.
pub open spec fn effective_config_name(c: Option<String>) -> Seq<char> {
    match c {
        Some(s) => s@,
        None => "Debug"@,
    }
}

/// One combination's plan matches the specification of every part.
pub open spec fn combo_plan_ok(
    cp: ComboPlan,
    cfg: BuildSettingsConfig,
    project: Seq<char>,
    config_name: Seq<char>,
    c: Seq<(Seq<char>, Seq<char>)>,
) -> bool {
    cp.combination.deep_view() == c && cp.dir_name@ == dir_name_spec(project, cfg.build_settings@, c)
        && cp.base_name@ == base_name_spec(project, cfg.build_settings@, c, config_name)
        && cp.header@ == header_spec(cfg, c)
}

/// Validates the supplied values, checks the required floors, expands
/// the combinations, and resolves names, header text and the argument
/// vector for every combination — everything the run decides before
/// its first subprocess. Fails with the exact message of the first
/// check that rejects, and succeeds exactly when none does.
pub fn prepare_build_plan(
    cfg: &BuildSettingsConfig,
    config: &BuildConfig,
    project_name: &str,
) -> (r: Result<BuildPlan, String>)
    ensures
        (r is Ok) == (plan_error_spec(*cfg, config.settings.entries@) is None),
        r matches Err(m) ==> Some(m@) == plan_error_spec(*cfg, config.settings.entries@),
        r matches Ok(plan) ==> plan.args.deep_view() == headless_args_spec(project_name@, *config)
            && plan.combos@.len() == combos_spec(*cfg, config.settings.entries@).len()
            && plan.combos@.len() > 0 && forall|i: int|
            0 <= i < plan.combos@.len() ==> combo_plan_ok(
                #[trigger] plan.combos@[i],
                *cfg,
                project_name@,
                effective_config_name(config.config_name),
                combos_spec(*cfg, config.settings.entries@)[i],
            ),
{
    let n = cfg.build_settings.len();
    let mut i: usize = 0;
    proof {
        assert(cfg.build_settings@.subrange(0, 0) =~= Seq::<BuildSetting>::empty());
    }
    while i < n
        invariant
            0 <= i <= n,
            n == cfg.build_settings@.len(),
            first_validation_error(
                cfg.build_settings@.subrange(0, i as int),
                *cfg,
                config.settings.entries@,
            ) is None,
        decreases n - i,
    {
        let st = &cfg.build_settings[i];
        proof {
            assert(cfg.build_settings@.subrange(0, i as int + 1).drop_last()
                =~= cfg.build_settings@.subrange(0, i as int));
            assert(cfg.build_settings@.subrange(0, i as int + 1).last()
                == cfg.build_settings@[i as int]);
        }
        match config.settings.get(st.id.as_str()) {
            Some(v) => match cfg.validate_setting(st.id.as_str(), v) {
                Ok(_) => {},
                Err(m) => {
                    proof {
                        assert(first_validation_error(
                            cfg.build_settings@.subrange(0, i as int + 1),
                            *cfg,
                            config.settings.entries@,
                        ) == Some(m@));
                        lemma_validation_error_extends(
                            cfg.build_settings@,
                            *cfg,
                            config.settings.entries@,
                            i as int + 1,
                        );
                    }
                    return Err(m);
                },
            },
            None => {},
        }
        i = i + 1;
    }
    proof {
        assert(cfg.build_settings@.subrange(0, n as int) =~= cfg.build_settings@);
    }
    let missing = missing_required_settings(cfg, &config.settings);
    if missing.len() > 0 {
        let m = build_missing_msg(&missing);
        proof {
            assert(missing.deep_view().len() == missing@.len());
        }
        return Err(m);
    }
    proof {
        assert(missing_ids_spec(cfg.build_settings@, config.settings.entries@).len() == 0);
    }
    let combos = generate_build_combinations(cfg, &config.settings);
    if combos.len() == 0 {
        let mut m = String::new();
        m.append(
            "No build combinations generated. This usually means at least one build parameter has no values. Check settings_values and build_settings.",
        );
        proof {
            assert(m@ =~= no_combos_msg());
            assert(combos_spec(*cfg, config.settings.entries@).len() == combos@.len());
        }
        return Err(m);
    }
    let config_name_str: &str = match &config.config_name {
        Some(c) => c.as_str(),
        None => "Debug",
    };
    proof {
        assert(config_name_str@ == effective_config_name(config.config_name));
    }
    let args = build_headless_args(project_name, config);
    let mut out: Vec<ComboPlan> = Vec::new();
    let cn = combos.len();
    let mut k: usize = 0;
    let ghost cspec = combos_spec(*cfg, config.settings.entries@);
    while k < cn
        invariant
            0 <= k <= cn,
            cn == combos@.len(),
            combos.deep_view() == cspec,
            out@.len() == k,
            config_name_str@ == effective_config_name(config.config_name),
            forall|j: int|
                0 <= j < k ==> combo_plan_ok(
                    #[trigger] out@[j],
                    *cfg,
                    project_name@,
                    effective_config_name(config.config_name),
                    cspec[j],
                ),
        decreases cn - k,
    {
        let combo = &combos[k];
        proof {
            assert(combo.deep_view() == cspec[k as int]);
        }
        let owned = crate::build_combinations::clone_combination(combo);
        let cslice = combo.as_slice();
        proof {
            assert(cslice.deep_view() =~= combo.deep_view());
        }
        let names = resolve_names(project_name, cfg, cslice, config_name_str);
        let header = match generate_build_config_h(cfg, cslice) {
            Ok(h) => h,
            Err(e) => {
                proof {
                    assert(false);
                }
                e
            },
        };
        let cp = ComboPlan { combination: owned, dir_name: names.0, base_name: names.1, header };
        out.push(cp);
        proof {
            assert(out@[k as int].combination.deep_view() =~= cspec[k as int]);
            assert(combo_plan_ok(
                out@[k as int],
                *cfg,
                project_name@,
                effective_config_name(config.config_name),
                cspec[k as int],
            ));
        }
        k = k + 1;
    }
    Ok(BuildPlan { combos: out, args })
}

/// Where a run stands: the plan phases, the per-combination phases with
/// the index of the combination in flight, and the three terminal
/// outcomes.
#[derive(Debug, Clone, Copy, PartialEq, Eq, Structural)]
pub enum RunPhase {
    Validating,
    Preparing { idx: usize },
    Launching { idx: usize },
    Running { idx: usize },
    Verifying { idx: usize },
    Finalizing { idx: usize },
    Completed,
    Failed,
    Cancelled,
}

/// What the surrounding run loop reports into the machine.
#[derive(Debug, Clone, Copy)]
pub enum RunEvent {
    /// The plan is ready, with its combination count.
    PlanReady { total: usize },
    /// Validation, the required check or expansion rejected the run.
    PlanFailed,
    /// Header written and stale artifact removed, or not.
    PrepareDone { ok: bool },
    /// The external tool spawned, or failed to.
    SpawnDone { ok: bool },
    /// The external process exited with this code.
    ProcessExited { code: i32 },
    /// The expected artifact exists and is non-empty, or not.
    ArtifactChecked { ok: bool },
    /// The artifact was renamed and the logs written, or not.
    FinalizeDone { ok: bool },
    /// Cancellation was requested.
    CancelRequested,
}

/// What the machine asks the loop to do next.
#[derive(Debug, Clone, Copy)]
pub enum RunAction {
    WriteHeader { idx: usize },
    Spawn { idx: usize },
    AwaitExit { idx: usize },
    VerifyArtifact { idx: usize },
    FinalizeCombo { idx: usize },
    Stop,
}

/// The supervisor state: the phase, the combination count of the plan,
/// and whether cancellation has been observed.
#[derive(Debug, Clone, Copy)]
pub struct RunState {
    pub phase: RunPhase,
    pub total: usize,
    pub cancel_seen: bool,
}

/// The run has ended, one way or another.
pub open spec fn is_terminal(p: RunPhase) -> bool {
    p is Completed || p is Failed || p is Cancelled
}

/// A cancellation once observed leaves the machine cancelled, and the
/// in-flight combination index stays within the plan.
pub open spec fn run_state_wf(s: RunState) -> bool {
    (s.cancel_seen ==> s.phase is Cancelled) && (match s.phase {
        RunPhase::Preparing { idx } => idx < s.total,
        RunPhase::Launching { idx } => idx < s.total,
        RunPhase::Running { idx } => idx < s.total,
        RunPhase::Verifying { idx } => idx < s.total,
        RunPhase::Finalizing { idx } => idx < s.total,
        _ => true,
    })
}

/// Which events a phase can receive; cancellation fits everywhere.
pub open spec fn event_fits(s: RunState, ev: RunEvent) -> bool {
    ev is CancelRequested || (match s.phase {
        RunPhase::Validating => ev is PlanReady || ev is PlanFailed,
        RunPhase::Preparing { .. } => ev is PrepareDone,
        RunPhase::Launching { .. } => ev is SpawnDone,
        RunPhase::Running { .. } => ev is ProcessExited,
        RunPhase::Verifying { .. } => ev is ArtifactChecked,
        RunPhase::Finalizing { .. } => ev is FinalizeDone,
        _ => false,
    })
}

/// The transition relation of the run: cancellation moves any state to
/// `Cancelled`; a failure report moves to `Failed` and stops; clean
/// progress walks one combination through its phases and either starts
/// the next combination or completes after the last one.
pub open spec fn step_spec(s: RunState, ev: RunEvent) -> (RunState, RunAction) {
    if ev is CancelRequested {
        (
            RunState { phase: RunPhase::Cancelled, total: s.total, cancel_seen: true },
            RunAction::Stop,
        )
    } else {
        match s.phase {
            RunPhase::Validating => match ev {
                RunEvent::PlanReady { total } => if total > 0 {
                    (
                        RunState { phase: RunPhase::Preparing { idx: 0 }, total, cancel_seen: s.cancel_seen },
                        RunAction::WriteHeader { idx: 0 },
                    )
                } else {
                    (
                        RunState { phase: RunPhase::Failed, total: s.total, cancel_seen: s.cancel_seen },
                        RunAction::Stop,
                    )
                },
                _ => (
                    RunState { phase: RunPhase::Failed, total: s.total, cancel_seen: s.cancel_seen },
                    RunAction::Stop,
                ),
            },
            RunPhase::Preparing { idx } => match ev {
                RunEvent::PrepareDone { ok } => if ok {
                    (
                        RunState { phase: RunPhase::Launching { idx }, total: s.total, cancel_seen: s.cancel_seen },
                        RunAction::Spawn { idx },
                    )
                } else {
                    (
                        RunState { phase: RunPhase::Failed, total: s.total, cancel_seen: s.cancel_seen },
                        RunAction::Stop,
                    )
                },
                _ => (
                    RunState { phase: RunPhase::Failed, total: s.total, cancel_seen: s.cancel_seen },
                    RunAction::Stop,
                ),
            },
            RunPhase::Launching { idx } => match ev {
                RunEvent::SpawnDone { ok } => if ok {
                    (
                        RunState { phase: RunPhase::Running { idx }, total: s.total, cancel_seen: s.cancel_seen },
                        RunAction::AwaitExit { idx },
                    )
                } else {
                    (
                        RunState { phase: RunPhase::Failed, total: s.total, cancel_seen: s.cancel_seen },
                        RunAction::Stop,
                    )
                },
                _ => (
                    RunState { phase: RunPhase::Failed, total: s.total, cancel_seen: s.cancel_seen },
                    RunAction::Stop,
                ),
            },
            RunPhase::Running { idx } => match ev {
                RunEvent::ProcessExited { code } => if code == 0 {
                    (
                        RunState { phase: RunPhase::Verifying { idx }, total: s.total, cancel_seen: s.cancel_seen },
                        RunAction::VerifyArtifact { idx },
                    )
                } else {
                    (
                        RunState { phase: RunPhase::Failed, total: s.total, cancel_seen: s.cancel_seen },
                        RunAction::Stop,
                    )
                },
                _ => (
                    RunState { phase: RunPhase::Failed, total: s.total, cancel_seen: s.cancel_seen },
                    RunAction::Stop,
                ),
            },
            RunPhase::Verifying { idx } => match ev {
                RunEvent::ArtifactChecked { ok } => if ok {
                    (
                        RunState { phase: RunPhase::Finalizing { idx }, total: s.total, cancel_seen: s.cancel_seen },
                        RunAction::FinalizeCombo { idx },
                    )
                } else {
                    (
                        RunState { phase: RunPhase::Failed, total: s.total, cancel_seen: s.cancel_seen },
                        RunAction::Stop,
                    )
                },
                _ => (
                    RunState { phase: RunPhase::Failed, total: s.total, cancel_seen: s.cancel_seen },
                    RunAction::Stop,
                ),
            },
            RunPhase::Finalizing { idx } => match ev {
                RunEvent::FinalizeDone { ok } => if !ok {
                    (
                        RunState { phase: RunPhase::Failed, total: s.total, cancel_seen: s.cancel_seen },
                        RunAction::Stop,
                    )
                } else if idx + 1 < s.total {
                    (
                        RunState { phase: RunPhase::Preparing { idx: (idx + 1) as usize }, total: s.total, cancel_seen: s.cancel_seen },
                        RunAction::WriteHeader { idx: (idx + 1) as usize },
                    )
                } else {
                    (
                        RunState { phase: RunPhase::Completed, total: s.total, cancel_seen: s.cancel_seen },
                        RunAction::Stop,
                    )
                },
                _ => (
                    RunState { phase: RunPhase::Failed, total: s.total, cancel_seen: s.cancel_seen },
                    RunAction::Stop,
                ),
            },
            _ => (s, RunAction::Stop),
        }
    }
}

impl RunState {
    /// A fresh run, about to validate.
    pub fn new() -> (r: RunState)
        ensures
            r.phase is Validating,
            r.total == 0,
            !r.cancel_seen,
            run_state_wf(r),
    {
        RunState { phase: RunPhase::Validating, total: 0, cancel_seen: false }
    }

    /// Advances the run by one reported event and says what to do next.
    pub fn step(&mut self, ev: RunEvent) -> (a: RunAction)
        requires
            run_state_wf(*old(self)),
            !is_terminal(old(self).phase),
            event_fits(*old(self), ev),
        ensures
            (*final(self), a) == step_spec(*old(self), ev),
            run_state_wf(*final(self)),
    {
        match ev {
            RunEvent::CancelRequested => {
                self.phase = RunPhase::Cancelled;
                self.cancel_seen = true;
                RunAction::Stop
            },
            _ => {
                let phase = self.phase;
                match phase {
                    RunPhase::Validating => match ev {
                        RunEvent::PlanReady { total } => {
                            if total > 0 {
                                self.phase = RunPhase::Preparing { idx: 0 };
                                self.total = total;
                                RunAction::WriteHeader { idx: 0 }
                            } else {
                                self.phase = RunPhase::Failed;
                                RunAction::Stop
                            }
                        },
                        _ => {
                            self.phase = RunPhase::Failed;
                            RunAction::Stop
                        },
                    },
                    RunPhase::Preparing { idx } => match ev {
                        RunEvent::PrepareDone { ok } => {
                            if ok {
                                self.phase = RunPhase::Launching { idx };
                                RunAction::Spawn { idx }
                            } else {
                                self.phase = RunPhase::Failed;
                                RunAction::Stop
                            }
                        },
                        _ => {
                            self.phase = RunPhase::Failed;
                            RunAction::Stop
                        },
                    },
                    RunPhase::Launching { idx } => match ev {
                        RunEvent::SpawnDone { ok } => {
                            if ok {
                                self.phase = RunPhase::Running { idx };
                                RunAction::AwaitExit { idx }
                            } else {
                                self.phase = RunPhase::Failed;
                                RunAction::Stop
                            }
                        },
                        _ => {
                            self.phase = RunPhase::Failed;
                            RunAction::Stop
                        },
                    },
                    RunPhase::Running { idx } => match ev {
                        RunEvent::ProcessExited { code } => {
                            if code == 0 {
                                self.phase = RunPhase::Verifying { idx };
                                RunAction::VerifyArtifact { idx }
                            } else {
                                self.phase = RunPhase::Failed;
                                RunAction::Stop
                            }
                        },
                        _ => {
                            self.phase = RunPhase::Failed;
                            RunAction::Stop
                        },
                    },
                    RunPhase::Verifying { idx } => match ev {
                        RunEvent::ArtifactChecked { ok } => {
                            if ok {
                                self.phase = RunPhase::Finalizing { idx };
                                RunAction::FinalizeCombo { idx }
                            } else {
                                self.phase = RunPhase::Failed;
                                RunAction::Stop
                            }
                        },
                        _ => {
                            self.phase = RunPhase::Failed;
                            RunAction::Stop
                        },
                    },
                    RunPhase::Finalizing { idx } => match ev {
                        RunEvent::FinalizeDone { ok } => {
                            if !ok {
                                self.phase = RunPhase::Failed;
                                RunAction::Stop
                            } else if idx + 1 < self.total {
                                self.phase = RunPhase::Preparing { idx: idx + 1 };
                                RunAction::WriteHeader { idx: idx + 1 }
                            } else {
                                self.phase = RunPhase::Completed;
                                RunAction::Stop
                            }
                        },
                        _ => {
                            self.phase = RunPhase::Failed;
                            RunAction::Stop
                        },
                    },
                    _ => RunAction::Stop,
                }
            },
        }
    }
}

/// Law: a cancellation observed while a combination is running moves the
/// run straight to its cancelled terminal state — the loop is told to
/// stop, nothing further is launched, and the outcome is not a success.
pub proof fn lemma_cancel_during_running(s: RunState, idx: usize)
    requires
        run_state_wf(s),
        s.phase == (RunPhase::Running { idx }),
    ensures
        step_spec(s, RunEvent::CancelRequested).0.phase is Cancelled,
        step_spec(s, RunEvent::CancelRequested).0.cancel_seen,
        is_terminal(step_spec(s, RunEvent::CancelRequested).0.phase),
        step_spec(s, RunEvent::CancelRequested).1 is Stop,
{
}

/// Law: a cancellation event never starts anything, whatever the state:
/// the resulting action is to stop, and the machine lands in
/// `Cancelled`.
pub proof fn lemma_cancel_never_launches(s: RunState)
    ensures
        step_spec(s, RunEvent::CancelRequested).1 is Stop,
        step_spec(s, RunEvent::CancelRequested).0.phase is Cancelled,
{
}

/// Law: once a cancellation has been observed, no event can turn the
/// run into a completed one.
pub proof fn lemma_no_completion_after_cancel(s: RunState, ev: RunEvent)
    requires
        run_state_wf(s),
        s.cancel_seen,
    ensures
        !(step_spec(s, ev).0.phase is Completed),
{
}

/// Law: the run completes only by finalizing its last combination
/// cleanly, with no cancellation seen.
pub proof fn lemma_completion_needs_all(s: RunState, ev: RunEvent)
    requires
        run_state_wf(s),
        !is_terminal(s.phase),
        step_spec(s, ev).0.phase is Completed,
    ensures
        s.phase matches RunPhase::Finalizing { idx } && idx + 1 == s.total,
        ev matches RunEvent::FinalizeDone { ok: true },
        !s.cancel_seen,
{
}

} // verus!