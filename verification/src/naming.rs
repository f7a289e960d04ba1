//! Deterministic directory and file names for one build combination.
//!
//! The combination directory name is the project name followed by one
//! `_<token>_<value>` piece per combination pair; the artifact base name
//! joins a truncated project name, one `<token>-<value>` piece per pair
//! with a non-empty value, and a truncated build configuration name.
//! Both are pure functions of their inputs, so re-running the same
//! combination always addresses the same files.

use vstd::prelude::*;

use crate::config::{find_setting, find_setting_exec, BuildSetting, BuildSettingsConfig};

verus! {

/// The `_<token>_<value>` pieces of the directory name, one per pair
/// whose setting exists in the schema, in combination order.
pub open spec fn dir_pairs(settings: Seq<BuildSetting>, comb: Seq<(Seq<char>, Seq<char>)>) -> Seq<
    char,
>
    decreases comb.len(),
{
    if comb.len() == 0 {
        Seq::<char>::empty()
    } else {
        dir_pairs(settings, comb.drop_last()) + (match find_setting(settings, comb.last().0) {
            Some(st) => "_"@ + st.value@ + "_"@ + comb.last().1,
            None => Seq::<char>::empty(),
        })
    }
}

/// The combination directory name: the project name, then the pairs.
pub open spec fn dir_name_spec(
    project: Seq<char>,
    settings: Seq<BuildSetting>,
    comb: Seq<(Seq<char>, Seq<char>)>,
) -> Seq<char> {
    project + dir_pairs(settings, comb)
}

/// The first `k` characters, or all of them when the name is shorter.
pub open spec fn take_chars(s: Seq<char>, k: int) -> Seq<char> {
    if s.len() <= k {
        s
    } else {
        s.subrange(0, k)
    }
}

/// The `_<token>-<value>` pieces of the artifact base name: one per pair
/// whose setting exists and whose value is non-empty.
pub open spec fn base_pairs(settings: Seq<BuildSetting>, comb: Seq<(Seq<char>, Seq<char>)>) -> Seq<
    char,
>
    decreases comb.len(),
{
    if comb.len() == 0 {
        Seq::<char>::empty()
    } else {
        base_pairs(settings, comb.drop_last()) + (match find_setting(settings, comb.last().0) {
            Some(st) => if comb.last().1.len() > 0 {
                "_"@ + st.value@ + "-"@ + comb.last().1
            } else {
                Seq::<char>::empty()
            },
            None => Seq::<char>::empty(),
        })
    }
}

/// The artifact base name: six characters of the project name, the
/// pairs, and five characters of the build configuration name, joined
/// by underscores.
pub open spec fn base_name_spec(
    project: Seq<char>,
    settings: Seq<BuildSetting>,
    comb: Seq<(Seq<char>, Seq<char>)>,
    config: Seq<char>,
) -> Seq<char> {
    take_chars(project, 6) + base_pairs(settings, comb) + "_"@ + take_chars(config, 5)
}

/// Derives the combination directory name and the artifact base name
/// for one combination: pure in all four inputs.
pub fn resolve_names(
    project_name: &str,
    settings_config: &BuildSettingsConfig,
    combination: &[(String, String)],
    config_name: &str,
) -> (r: (String, String))
    ensures
        r.0@ == dir_name_spec(
            project_name@,
            settings_config.build_settings@,
            combination.deep_view(),
        ),
        r.1@ == base_name_spec(
            project_name@,
            settings_config.build_settings@,
            combination.deep_view(),
            config_name@,
        ),
{
    let ghost comb = combination.deep_view();
    let mut dir = String::new();
    dir.append(project_name);
    let mut base = String::new();
    let pn = project_name.unicode_len();
    if pn > 6 {
        base.append(project_name.substring_char(0, 6));
    } else {
        base.append(project_name);
    }
    let n = combination.len();
    let mut i: usize = 0;
    proof {
        assert(comb.subrange(0, 0) =~= Seq::<(Seq<char>, Seq<char>)>::empty());
        assert(dir@ =~= project_name@ + dir_pairs(
            settings_config.build_settings@,
            comb.subrange(0, 0),
        ));
        assert(base@ =~= take_chars(project_name@, 6) + base_pairs(
            settings_config.build_settings@,
            comb.subrange(0, 0),
        ));
    }
    while i < n
        invariant
            0 <= i <= n,
            n == combination@.len(),
            comb == combination.deep_view(),
            dir@ == project_name@ + dir_pairs(
                settings_config.build_settings@,
                comb.subrange(0, i as int),
            ),
            base@ == take_chars(project_name@, 6) + base_pairs(
                settings_config.build_settings@,
                comb.subrange(0, i as int),
            ),
        decreases n - i,
    {
        proof {
            assert(comb.subrange(0, i as int + 1).drop_last() =~= comb.subrange(0, i as int));
            assert(comb.subrange(0, i as int + 1).last() == comb[i as int]);
        }
        let pair = &combination[i];
        match find_setting_exec(&settings_config.build_settings, pair.0.as_str()) {
            Some(st) => {
                dir.append("_");
                dir.append(st.value.as_str());
                dir.append("_");
                dir.append(pair.1.as_str());
                if pair.1.unicode_len() > 0 {
                    base.append("_");
                    base.append(st.value.as_str());
                    base.append("-");
                    base.append(pair.1.as_str());
                }
            },
            None => {},
        }
        proof {
            assert(dir@ =~= project_name@ + dir_pairs(
                settings_config.build_settings@,
                comb.subrange(0, i as int + 1),
            ));
            assert(base@ =~= take_chars(project_name@, 6) + base_pairs(
                settings_config.build_settings@,
                comb.subrange(0, i as int + 1),
            ));
        }
        i = i + 1;
    }
    proof {
        assert(comb.subrange(0, n as int) =~= comb);
    }
    base.append("_");
    let cn = config_name.unicode_len();
    if cn > 5 {
        base.append(config_name.substring_char(0, 5));
    } else {
        base.append(config_name);
    }
    proof {
        assert(base@ =~= base_name_spec(
            project_name@,
            settings_config.build_settings@,
            comb,
            config_name@,
        ));
    }
    (dir, base)
}

/// The file name under which the compiler itself drops the built
/// binary: the project name by the lowercase convention, with the
/// binary extension.
pub fn expected_artifact_file_name(project_name: &str) -> (r: String)
    ensures
        r@ == crate::strnum::lower_of(project_name@) + ".bin"@,
{
    let mut s = crate::strnum::lowercase(project_name);
    s.append(".bin");
    proof {
        assert(s@ =~= crate::strnum::lower_of(project_name@) + ".bin"@);
    }
    s
}

/// Law: name resolution is a pure function — the same project name,
/// schema, combination and configuration name always resolve to the
/// same directory and artifact names.
pub proof fn lemma_naming_deterministic(
    project: Seq<char>,
    settings: Seq<BuildSetting>,
    comb: Seq<(Seq<char>, Seq<char>)>,
    config: Seq<char>,
    r1: (Seq<char>, Seq<char>),
    r2: (Seq<char>, Seq<char>),
)
    requires
        r1.0 == dir_name_spec(project, settings, comb),
        r1.1 == base_name_spec(project, settings, comb, config),
        r2.0 == dir_name_spec(project, settings, comb),
        r2.1 == base_name_spec(project, settings, comb, config),
    ensures
        r1 == r2,
{
}

} // verus!