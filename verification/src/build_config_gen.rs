//! Rendering of one build combination into the contents of the
//! generated preprocessor configuration header.
//!
//! The header is wrapped in a single include guard. A `range` setting
//! with a value emits a guarded numeric define carrying the largest
//! included integer; a `select` or `checkbox_group` setting emits, for
//! every declared option with a symbol, either `#define` or `#undef`
//! depending on whether that option is the combination's value — so no
//! stale symbol from an earlier run survives.

use vstd::prelude::*;

use crate::build_combinations::range_values;
use crate::config::{
    range_error, BuildSetting, BuildSettingOption, BuildSettingsConfig, parse_range_string,
};
use crate::strnum::{i32_to_string, int_str, split_char_spec, str_eq};

verus! {

/// The value a combination carries for a setting id: the first matching
/// pair, if any.
pub open spec fn lookup_combo(comb: Seq<(Seq<char>, Seq<char>)>, id: Seq<char>) -> Option<
    Seq<char>,
>
    decreases comb.len(),
{
    if comb.len() == 0 {
        None
    } else if comb[0].0 == id {
        Some(comb[0].1)
    } else {
        lookup_combo(comb.drop_first(), id)
    }
}

/// The header lines one option contributes: its symbol defined when the
/// option's value is the selected one, undefined otherwise.
pub open spec fn opt_chunk(opt: BuildSettingOption, sel: Option<Seq<char>>) -> Seq<char> {
    match opt.define {
        Some(d) => if sel == Some(opt.value@) {
            "#define "@ + d@ + "\n"@
        } else {
            "#undef "@ + d@ + "\n"@
        },
        None => Seq::<char>::empty(),
    }
}

/// The lines of all options of one setting, in declaration order.
pub open spec fn options_chunks(opts: Seq<BuildSettingOption>, sel: Option<Seq<char>>) -> Seq<
    char,
>
    decreases opts.len(),
{
    if opts.len() == 0 {
        Seq::<char>::empty()
    } else {
        options_chunks(opts.drop_last(), sel) + opt_chunk(opts.last(), sel)
    }
}

/// The header lines one setting contributes for a combination.
pub open spec fn setting_chunk(setting: BuildSetting, comb: Seq<(Seq<char>, Seq<char>)>) -> Seq<
    char,
> {
    if setting.field_type@ == "range"@ {
        match lookup_combo(comb, setting.id@) {
            Some(v) => match setting.validation {
                Some(val) => {
                    let parts = split_char_spec(v, ',');
                    let nums = range_values(parts, val.min as int, val.max as int);
                    if range_error(parts, val.min as int, val.max as int) is None && nums.len()
                        > 0 {
                        match setting.define {
                            Some(d) => "#ifndef "@ + d@ + "\n#define "@ + d@ + " "@ + int_str(
                                nums.last() as int,
                            ) + "\n#endif\n"@,
                            None => Seq::<char>::empty(),
                        }
                    } else {
                        Seq::<char>::empty()
                    }
                },
                None => Seq::<char>::empty(),
            },
            None => Seq::<char>::empty(),
        }
    } else if setting.field_type@ == "select"@ || setting.field_type@ == "checkbox_group"@ {
        match setting.options {
            Some(opts) => options_chunks(opts@, lookup_combo(comb, setting.id@)),
            None => Seq::<char>::empty(),
        }
    } else {
        Seq::<char>::empty()
    }
}

/// The concatenated chunks of a schema prefix, in schema order.
pub open spec fn settings_chunks(
    settings: Seq<BuildSetting>,
    comb: Seq<(Seq<char>, Seq<char>)>,
) -> Seq<char>
    decreases settings.len(),
{
    if settings.len() == 0 {
        Seq::<char>::empty()
    } else {
        settings_chunks(settings.drop_last(), comb) + setting_chunk(settings.last(), comb)
    }
}

/// The full header text for one combination.
pub open spec fn header_spec(cfg: BuildSettingsConfig, comb: Seq<(Seq<char>, Seq<char>)>) -> Seq<
    char,
> {
    "#ifndef BUILD_CONFIG_H_\n#define BUILD_CONFIG_H_\n\n"@ + settings_chunks(
        cfg.build_settings@,
        comb,
    ) + "#undef DEBUG_SET\n"@ + "\n#endif // BUILD_CONFIG_H_\n"@
}

fn find_combo_value<'a>(comb: &'a [(String, String)], id: &str) -> (r: Option<&'a String>)
    ensures
        match r {
            Some(v) => lookup_combo(comb.deep_view(), id@) == Some(v@),
            None => lookup_combo(comb.deep_view(), id@) is None,
        },
{
    let n = comb.len();
    let mut i: usize = 0;
    proof {
        assert(comb.deep_view().subrange(0, n as int) =~= comb.deep_view());
    }
    while i < n
        invariant
            0 <= i <= n,
            n == comb@.len(),
            lookup_combo(comb.deep_view(), id@) == lookup_combo(
                comb.deep_view().subrange(i as int, n as int),
                id@,
            ),
        decreases n - i,
    {
        proof {
            let tail = comb.deep_view().subrange(i as int, n as int);
            assert(tail[0] == comb.deep_view()[i as int]);
            assert(tail.drop_first() =~= comb.deep_view().subrange(i as int + 1, n as int));
        }
        if str_eq(comb[i].0.as_str(), id) {
            return Some(&comb[i].1);
        }
        i = i + 1;
    }
    proof {
        assert(comb.deep_view().subrange(n as int, n as int) =~= Seq::<(Seq<char>, Seq<char>)>::empty());
    }
    None
}

/// Renders the header for one combination: a pure function of the schema
/// and the combination, so identical inputs always yield byte identical
/// text. It never fails.
pub fn generate_build_config_h(
    settings_config: &BuildSettingsConfig,
    combination: &[(String, String)],
) -> (r: Result<String, String>)
    ensures
        r matches Ok(h) && h@ == header_spec(*settings_config, combination.deep_view()),
{
    let mut out = String::new();
    out.append("#ifndef BUILD_CONFIG_H_\n#define BUILD_CONFIG_H_\n\n");
    let n = settings_config.build_settings.len();
    let mut si: usize = 0;
    proof {
        assert(settings_config.build_settings@.subrange(0, 0) =~= Seq::<BuildSetting>::empty());
        assert(out@ =~= "#ifndef BUILD_CONFIG_H_\n#define BUILD_CONFIG_H_\n\n"@ + settings_chunks(
            settings_config.build_settings@.subrange(0, 0),
            combination.deep_view(),
        ));
    }
    while si < n
        invariant
            0 <= si <= n,
            n == settings_config.build_settings@.len(),
            out@ == "#ifndef BUILD_CONFIG_H_\n#define BUILD_CONFIG_H_\n\n"@ + settings_chunks(
                settings_config.build_settings@.subrange(0, si as int),
                combination.deep_view(),
            ),
        decreases n - si,
    {
        let setting = &settings_config.build_settings[si];
        let ghost pre = settings_config.build_settings@.subrange(0, si as int);
        let ghost cur = settings_config.build_settings@.subrange(0, si as int + 1);
        proof {
            assert(cur.drop_last() =~= pre);
            assert(cur.last() == settings_config.build_settings@[si as int]);
        }
        let value_opt = find_combo_value(combination, setting.id.as_str());
        if str_eq(setting.field_type.as_str(), "range") {
            match value_opt {
                Some(v) => match &setting.validation {
                    Some(val) => match parse_range_string(v.as_str(), val.min, val.max) {
                        Ok(nums) => {
                            proof {
                                crate::build_combinations::lemma_range_values_exact(
                                    split_char_spec(v@, ','),
                                    val.min,
                                    val.max,
                                    nums@,
                                );
                            }
                            if nums.len() > 0 {
                                match &setting.define {
                                    Some(d) => {
                                        out.append("#ifndef ");
                                        out.append(d.as_str());
                                        out.append("\n#define ");
                                        out.append(d.as_str());
                                        out.append(" ");
                                        let last = i32_to_string(nums[nums.len() - 1]);
                                        out.append(last.as_str());
                                        out.append("\n#endif\n");
                                    },
                                    None => {},
                                }
                            }
                        },
                        Err(_) => {},
                    },
                    None => {},
                },
                None => {},
            }
        } else if str_eq(setting.field_type.as_str(), "select") || str_eq(
            setting.field_type.as_str(),
            "checkbox_group",
        ) {
            match &setting.options {
                Some(opts) => {
                    let ghost sel = lookup_combo(combination.deep_view(), setting.id@);
                    let on = opts.len();
                    let mut oi: usize = 0;
                    proof {
                        assert(opts@.subrange(0, 0) =~= Seq::<BuildSettingOption>::empty());
                        assert(out@ + options_chunks(opts@.subrange(0, 0), sel) =~= out@);
                    }
                    let ghost out0 = out@;
                    while oi < on
                        invariant
                            0 <= oi <= on,
                            on == opts@.len(),
                            sel == lookup_combo(combination.deep_view(), setting.id@),
                            match value_opt {
                                Some(v) => sel == Some(v@),
                                None => sel is None,
                            },
                            out@ == out0 + options_chunks(opts@.subrange(0, oi as int), sel),
                        decreases on - oi,
                    {
                        let opt = &opts[oi];
                        proof {
                            assert(opts@.subrange(0, oi as int + 1).drop_last() =~= opts@.subrange(
                                0,
                                oi as int,
                            ));
                            assert(opts@.subrange(0, oi as int + 1).last() == opts@[oi as int]);
                        }
                        match &opt.define {
                            Some(d) => {
                                let selected = match value_opt {
                                    Some(v) => str_eq(v.as_str(), opt.value.as_str()),
                                    None => false,
                                };
                                if selected {
                                    out.append("#define ");
                                    out.append(d.as_str());
                                    out.append("\n");
                                } else {
                                    out.append("#undef ");
                                    out.append(d.as_str());
                                    out.append("\n");
                                }
                            },
                            None => {},
                        }
                        oi = oi + 1;
                    }
                    proof {
                        assert(opts@.subrange(0, on as int) =~= opts@);
                    }
                },
                None => {},
            }
        }
        proof {
            assert(out@ =~= "#ifndef BUILD_CONFIG_H_\n#define BUILD_CONFIG_H_\n\n"@
                + settings_chunks(cur, combination.deep_view()));
        }
        si = si + 1;
    }
    proof {
        assert(settings_config.build_settings@.subrange(0, n as int)
            =~= settings_config.build_settings@);
    }
    out.append("#undef DEBUG_SET\n");
    out.append("\n#endif // BUILD_CONFIG_H_\n");
    proof {
        assert(out@ =~= header_spec(*settings_config, combination.deep_view()));
    }
    Ok(out)
}

/// Law: rendering is deterministic — two header texts rendered from the
/// same schema and the same combination are byte identical.
pub proof fn lemma_render_deterministic(
    cfg: BuildSettingsConfig,
    comb: Seq<(Seq<char>, Seq<char>)>,
    h1: Seq<char>,
    h2: Seq<char>,
)
    requires
        h1 == header_spec(cfg, comb),
        h2 == header_spec(cfg, comb),
    ensures
        h1 == h2,
{
}

} // verus!