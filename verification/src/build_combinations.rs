//! Expansion of a schema plus supplied raw values into the ordered list
//! of concrete build combinations.
//!
//! Every setting resolves to a list of candidate values; the cartesian
//! product of those lists, walked in schema order, gives one combination
//! per build. An optional setting with no candidates contributes no pair
//! instead of collapsing the product to nothing.

use vstd::prelude::*;

use crate::config::{
    lemma_includes_bounds, lookup_raw, nonblank_items, nonblank_strs, range_error, range_includes,
    sorted_strict, parse_range_string, BuildSetting, BuildSettingsConfig, RawValue, RawValueMap,
};
use crate::strnum::{i32_to_string, int_str, split_char_spec, str_eq};

verus! {

/// Whether a setting may be left without candidates: a required floor of
/// zero (or none) and not a `select`, which is always required.
pub open spec fn is_optional(setting: BuildSetting) -> bool {
    (match setting.min_selected {
        Some(m) => m <= 0,
        None => true,
    }) && setting.field_type@ != "select"@
}

/// The integers of `[lo, hi)` included by the parsed range tokens, in
/// ascending order.
pub open spec fn asc_included(
    parts: Seq<Seq<char>>,
    min: int,
    max: int,
    lo: int,
    hi: int,
) -> Seq<i32>
    decreases hi - lo,
{
    if lo >= hi {
        Seq::<i32>::empty()
    } else {
        (if range_includes(parts, min, max, lo) {
            seq![lo as i32]
        } else {
            Seq::<i32>::empty()
        }) + asc_included(parts, min, max, lo + 1, hi)
    }
}

/// The ascending, duplicate free list of integers a valid range string
/// denotes within `[min, max]`.
pub open spec fn range_values(parts: Seq<Seq<char>>, min: int, max: int) -> Seq<i32> {
    asc_included(parts, min, max, min, max + 1)
}

spec fn asc_elem_ok(parts: Seq<Seq<char>>, min: int, max: int, lo: int, hi: int, x: int) -> bool {
    lo <= x && x < hi && range_includes(parts, min, max, x)
}

proof fn lemma_asc_included(parts: Seq<Seq<char>>, min: int, max: int, lo: int, hi: int)
    requires
        -0x8000_0000 <= lo,
        hi <= 0x8000_0000,
    ensures
        sorted_strict(asc_included(parts, min, max, lo, hi)),
        forall|k: int|
            0 <= k < asc_included(parts, min, max, lo, hi).len() ==> asc_elem_ok(
                parts,
                min,
                max,
                lo,
                hi,
                (#[trigger] asc_included(parts, min, max, lo, hi)[k]) as int,
            ),
        forall|y: i32|
            asc_elem_ok(parts, min, max, lo, hi, y as int) ==> #[trigger] asc_included(
                parts,
                min,
                max,
                lo,
                hi,
            ).contains(y),
    decreases hi - lo,
{
    if lo < hi {
        lemma_asc_included(parts, min, max, lo + 1, hi);
        let tail = asc_included(parts, min, max, lo + 1, hi);
        let whole = asc_included(parts, min, max, lo, hi);
        if range_includes(parts, min, max, lo) {
            assert(whole == seq![lo as i32] + tail);
            assert(whole[0] == lo as i32);
            assert(forall|k: int| 0 <= k < tail.len() ==> whole[k + 1] == tail[k]);
            assert forall|k: int|
                0 <= k < whole.len() implies asc_elem_ok(parts, min, max, lo, hi, (
            #[trigger] whole[k]) as int) by {
                if k > 0 {
                    assert(whole[k] == tail[k - 1]);
                    assert(asc_elem_ok(parts, min, max, lo + 1, hi, tail[k - 1] as int));
                }
            }
            assert forall|i: int, j: int| 0 <= i < j < whole.len() implies whole[i] < whole[j] by {
                if i == 0 {
                    assert(whole[j] == tail[j - 1]);
                    assert(asc_elem_ok(parts, min, max, lo + 1, hi, tail[j - 1] as int));
                } else {
                    assert(whole[i] == tail[i - 1] && whole[j] == tail[j - 1]);
                }
            }
            assert forall|y: i32|
                asc_elem_ok(parts, min, max, lo, hi, y as int) implies #[trigger] whole.contains(y)
                by {
                if y as int == lo {
                    assert(whole[0] == y);
                } else {
                    assert(asc_elem_ok(parts, min, max, lo + 1, hi, y as int));
                    assert(tail.contains(y));
                    let k = choose|k: int| 0 <= k < tail.len() && tail[k] == y;
                    assert(whole[k + 1] == y);
                }
            }
        } else {
            assert(whole =~= tail);
            assert forall|k: int|
                0 <= k < whole.len() implies asc_elem_ok(parts, min, max, lo, hi, (
            #[trigger] whole[k]) as int) by {
                assert(asc_elem_ok(parts, min, max, lo + 1, hi, tail[k] as int));
            }
            assert forall|y: i32|
                asc_elem_ok(parts, min, max, lo, hi, y as int) implies #[trigger] whole.contains(y)
                by {
                assert(y as int != lo);
                assert(asc_elem_ok(parts, min, max, lo + 1, hi, y as int));
                assert(tail.contains(y));
            }
        }
    }
}

proof fn lemma_sorted_strict_same_set(a: Seq<i32>, b: Seq<i32>)
    requires
        sorted_strict(a),
        sorted_strict(b),
        forall|y: i32| #[trigger] a.contains(y) <==> #[trigger] b.contains(y),
    ensures
        a == b,
    decreases a.len(),
{
    if a.len() == 0 {
        if b.len() > 0 {
            assert(b.contains(b[0]));
            assert(a.contains(b[0]));
        }
        assert(a =~= b);
    } else {
        assert(a.contains(a[0]));
        assert(b.contains(a[0]));
        let bi = choose|bi: int| 0 <= bi < b.len() && b[bi] == a[0];
        if bi > 0 {
            assert(b.contains(b[0]));
            assert(a.contains(b[0]));
            let aj = choose|aj: int| 0 <= aj < a.len() && a[aj] == b[0];
            assert(b[0] < b[bi]);
            if aj > 0 {
                assert(a[0] < a[aj]);
            }
        }
        assert(b.len() > 0 && b[0] == a[0]);
        let at = a.drop_first();
        let bt = b.drop_first();
        assert forall|y: i32| #[trigger] at.contains(y) <==> #[trigger] bt.contains(y) by {
            if at.contains(y) {
                let k = choose|k: int| 0 <= k < at.len() && at[k] == y;
                assert(a[k + 1] == y);
                assert(a[0] < a[k + 1]);
                assert(a.contains(y)) by {
                    assert(a[k + 1] == y);
                }
                assert(b.contains(y));
                let m = choose|m: int| 0 <= m < b.len() && b[m] == y;
                assert(m != 0);
                assert(bt[m - 1] == y);
            }
            if bt.contains(y) {
                let k = choose|k: int| 0 <= k < bt.len() && bt[k] == y;
                assert(b[k + 1] == y);
                assert(b[0] < b[k + 1]);
                assert(b.contains(y)) by {
                    assert(b[k + 1] == y);
                }
                assert(a.contains(y));
                let m = choose|m: int| 0 <= m < a.len() && a[m] == y;
                assert(m != 0);
                assert(at[m - 1] == y);
            }
        }
        assert(sorted_strict(at)) by {
            assert(forall|i: int, j: int|
                0 <= i < j < at.len() ==> at[i] == a[i + 1] && at[j] == a[j + 1]);
        }
        assert(sorted_strict(bt)) by {
            assert(forall|i: int, j: int|
                0 <= i < j < bt.len() ==> bt[i] == b[i + 1] && bt[j] == b[j + 1]);
        }
        lemma_sorted_strict_same_set(at, bt);
        assert(a.len() == b.len());
        assert forall|i: int| 0 <= i < a.len() implies a[i] == b[i] by {
            if i > 0 {
                assert(a[i] == at[i - 1]);
                assert(b[i] == bt[i - 1]);
            }
        }
        assert(a =~= b);
    }
}

/// A strictly sorted list whose members are exactly the integers the
/// parsed range tokens include is the canonical ascending value list.
pub proof fn lemma_range_values_exact(parts: Seq<Seq<char>>, min: i32, max: i32, nums: Seq<i32>)
    requires
        sorted_strict(nums),
        forall|y: i32|
            #[trigger] nums.contains(y) <==> range_includes(parts, min as int, max as int, y as int),
    ensures
        nums == range_values(parts, min as int, max as int),
{
    lemma_asc_included(parts, min as int, max as int, min as int, max as int + 1);
    let rv = range_values(parts, min as int, max as int);
    assert forall|y: i32| #[trigger] nums.contains(y) <==> #[trigger] rv.contains(y) by {
        if nums.contains(y) {
            lemma_includes_bounds(parts, min as int, max as int, y as int);
            assert(asc_elem_ok(parts, min as int, max as int, min as int, max as int + 1, y as int));
            assert(rv.contains(y));
        }
        if rv.contains(y) {
            let k = choose|k: int| 0 <= k < rv.len() && rv[k] == y;
            assert(asc_elem_ok(
                parts,
                min as int,
                max as int,
                min as int,
                max as int + 1,
                rv[k] as int,
            ));
            assert(range_includes(parts, min as int, max as int, y as int));
            assert(nums.contains(y));
        }
    }
    lemma_sorted_strict_same_set(nums, rv);
}

/// The candidate values one setting resolves to from the supplied raw
/// values: a parsed and bound checked integer list for `range`, the
/// single supplied string for `select`, the non-blank supplied strings
/// for `checkbox_group`, and nothing for anything else.
pub open spec fn candidates_spec(setting: BuildSetting, entries: Seq<(String, RawValue)>) -> Seq<
    Seq<char>,
> {
    if setting.field_type@ == "range"@ {
        match lookup_raw(entries, setting.id@) {
            Some(RawValue::Text(s)) => match setting.validation {
                Some(v) => if range_error(split_char_spec(s@, ','), v.min as int, v.max as int)
                    is None {
                    range_values(split_char_spec(s@, ','), v.min as int, v.max as int).map_values(
                        |x: i32| int_str(x as int),
                    )
                } else {
                    Seq::<Seq<char>>::empty()
                },
                None => Seq::<Seq<char>>::empty(),
            },
            _ => Seq::<Seq<char>>::empty(),
        }
    } else if setting.field_type@ == "select"@ {
        match lookup_raw(entries, setting.id@) {
            Some(RawValue::Text(s)) => seq![s@],
            _ => Seq::<Seq<char>>::empty(),
        }
    } else if setting.field_type@ == "checkbox_group"@ {
        match lookup_raw(entries, setting.id@) {
            Some(RawValue::List(items)) => nonblank_strs(items@),
            _ => Seq::<Seq<char>>::empty(),
        }
    } else {
        Seq::<Seq<char>>::empty()
    }
}

/// Resolves the candidate value list of one setting, in candidate order:
/// ascending for `range`, supplied order for `checkbox_group`.
pub fn resolve_candidates(setting: &BuildSetting, values: &RawValueMap) -> (r: Vec<String>)
    ensures
        r.deep_view() == candidates_spec(*setting, values.entries@),
{
    let empty: Vec<String> = Vec::new();
    proof {
        assert(empty.deep_view() =~= Seq::<Seq<char>>::empty());
    }
    if str_eq(setting.field_type.as_str(), "range") {
        match values.get(setting.id.as_str()) {
            Some(rv) => match rv {
                RawValue::Text(s) => match &setting.validation {
                    Some(v) => match parse_range_string(s.as_str(), v.min, v.max) {
                        Ok(nums) => {
                            proof {
                                lemma_range_values_exact(
                                    split_char_spec(s@, ','),
                                    v.min,
                                    v.max,
                                    nums@,
                                );
                            }
                            let mut out: Vec<String> = Vec::new();
                            let n = nums.len();
                            let mut k: usize = 0;
                            while k < n
                                invariant
                                    0 <= k <= n,
                                    n == nums@.len(),
                                    out@.len() == k,
                                    forall|i: int|
                                        0 <= i < k ==> (#[trigger] out@[i])@ == int_str(
                                            nums@[i] as int,
                                        ),
                                decreases n - k,
                            {
                                out.push(i32_to_string(nums[k]));
                                k = k + 1;
                            }
                            proof {
                                assert(out.deep_view() =~= nums@.map_values(
                                    |x: i32| int_str(x as int),
                                ));
                            }
                            out
                        },
                        Err(_) => empty,
                    },
                    None => empty,
                },
                _ => empty,
            },
            None => empty,
        }
    } else if str_eq(setting.field_type.as_str(), "select") {
        match values.get(setting.id.as_str()) {
            Some(rv) => match rv {
                RawValue::Text(s) => {
                    let mut out: Vec<String> = Vec::new();
                    out.push(s.clone());
                    proof {
                        assert(out.deep_view() =~= seq![s@]);
                    }
                    out
                },
                _ => empty,
            },
            None => empty,
        }
    } else if str_eq(setting.field_type.as_str(), "checkbox_group") {
        match values.get(setting.id.as_str()) {
            Some(rv) => match rv {
                RawValue::List(items) => nonblank_items(items),
                _ => empty,
            },
            None => empty,
        }
    } else {
        empty
    }
}

/// The accumulator crossed with one setting's candidate list: for every
/// candidate in order, every existing combination extended with the pair
/// `(id, candidate)`.
/// Every combination of `acc` extended with the pair `(id, v)`.
pub open spec fn appended_all(
    acc: Seq<Seq<(Seq<char>, Seq<char>)>>,
    id: Seq<char>,
    v: Seq<char>,
) -> Seq<Seq<(Seq<char>, Seq<char>)>> {
    acc.map_values(|c: Seq<(Seq<char>, Seq<char>)>| c.push((id, v)))
}

pub open spec fn cross_one(
    acc: Seq<Seq<(Seq<char>, Seq<char>)>>,
    id: Seq<char>,
    vals: Seq<Seq<char>>,
) -> Seq<Seq<(Seq<char>, Seq<char>)>>
    decreases vals.len(),
{
    if vals.len() == 0 {
        Seq::<Seq<(Seq<char>, Seq<char>)>>::empty()
    } else {
        cross_one(acc, id, vals.drop_last()) + appended_all(acc, id, vals.last())
    }
}

/// The combinations generated by a prefix of the schema: one empty
/// combination to start with, then one cross per setting in declaration
/// order; an optional setting without candidates leaves the accumulator
/// untouched.
pub open spec fn combos_prefix(
    settings: Seq<BuildSetting>,
    entries: Seq<(String, RawValue)>,
) -> Seq<Seq<(Seq<char>, Seq<char>)>>
    decreases settings.len(),
{
    if settings.len() == 0 {
        seq![Seq::<(Seq<char>, Seq<char>)>::empty()]
    } else {
        let acc = combos_prefix(settings.drop_last(), entries);
        let st = settings.last();
        let vals = candidates_spec(st, entries);
        if vals.len() == 0 && is_optional(st) {
            acc
        } else {
            cross_one(acc, st.id@, vals)
        }
    }
}

/// All combinations of a schema against the supplied values.
pub open spec fn combos_spec(
    cfg: BuildSettingsConfig,
    entries: Seq<(String, RawValue)>,
) -> Seq<Seq<(Seq<char>, Seq<char>)>> {
    combos_prefix(cfg.build_settings@, entries)
}

/// An owned copy of one combination, value for value.
pub fn clone_combination(c: &Vec<(String, String)>) -> (r: Vec<(String, String)>)
    ensures
        r@ == c@,
{
    let mut r: Vec<(String, String)> = Vec::new();
    let n = c.len();
    let mut i: usize = 0;
    while i < n
        invariant
            0 <= i <= n,
            n == c@.len(),
            r@ =~= c@.subrange(0, i as int),
        decreases n - i,
    {
        r.push((c[i].0.clone(), c[i].1.clone()));
        proof {
            assert(r@ =~= c@.subrange(0, i as int + 1));
        }
        i = i + 1;
    }
    proof {
        assert(c@.subrange(0, n as int) =~= c@);
    }
    r
}

/// Expands the schema and the supplied raw values into the full ordered
/// list of build combinations: the cartesian product of the settings'
/// candidate lists in declaration order, where an optional setting with
/// no candidates contributes no pair, and a schema with no settings
/// yields exactly one empty combination.
pub fn generate_build_combinations(
    settings_config: &BuildSettingsConfig,
    settings: &RawValueMap,
) -> (r: Vec<Vec<(String, String)>>)
    ensures
        r.deep_view() == combos_spec(*settings_config, settings.entries@),
{
    let mut acc: Vec<Vec<(String, String)>> = Vec::new();
    let first: Vec<(String, String)> = Vec::new();
    acc.push(first);
    let n = settings_config.build_settings.len();
    let mut si: usize = 0;
    proof {
        assert(settings_config.build_settings@.subrange(0, 0) =~= Seq::<BuildSetting>::empty());
        assert(first.deep_view() =~= Seq::<(Seq<char>, Seq<char>)>::empty());
        assert(acc.deep_view() =~= combos_prefix(
            settings_config.build_settings@.subrange(0, 0),
            settings.entries@,
        ));
    }
    while si < n
        invariant
            0 <= si <= n,
            n == settings_config.build_settings@.len(),
            acc.deep_view() == combos_prefix(
                settings_config.build_settings@.subrange(0, si as int),
                settings.entries@,
            ),
        decreases n - si,
    {
        let setting = &settings_config.build_settings[si];
        let ghost pre = settings_config.build_settings@.subrange(0, si as int);
        let ghost cur = settings_config.build_settings@.subrange(0, si as int + 1);
        proof {
            assert(cur.drop_last() =~= pre);
            assert(cur.last() == settings_config.build_settings@[si as int]);
        }
        let vals = resolve_candidates(setting, settings);
        let optional = (match setting.min_selected {
            Some(m) => m <= 0,
            None => true,
        }) && !str_eq(setting.field_type.as_str(), "select");
        proof {
            assert(optional == is_optional(*setting));
        }
        if vals.len() == 0 && optional {
            proof {
                assert(candidates_spec(*setting, settings.entries@).len() == 0);
            }
        } else {
            let mut newacc: Vec<Vec<(String, String)>> = Vec::new();
            let vn = vals.len();
            let mut vi: usize = 0;
            let ghost valsv = candidates_spec(*setting, settings.entries@);
            proof {
                assert(valsv.subrange(0, 0) =~= Seq::<Seq<char>>::empty());
                assert(newacc.deep_view() =~= cross_one(
                    acc.deep_view(),
                    setting.id@,
                    valsv.subrange(0, 0),
                ));
            }
            while vi < vn
                invariant
                    0 <= vi <= vn,
                    vn == vals@.len(),
                    vals.deep_view() == valsv,
                    newacc.deep_view() == cross_one(
                        acc.deep_view(),
                        setting.id@,
                        valsv.subrange(0, vi as int),
                    ),
                decreases vn - vi,
            {
                let ghost vpre = valsv.subrange(0, vi as int);
                let ghost vcur = valsv.subrange(0, vi as int + 1);
                proof {
                    assert(vcur.drop_last() =~= vpre);
                    assert(vcur.last() == valsv[vi as int]);
                }
                let cn = acc.len();
                let mut ci: usize = 0;
                while ci < cn
                    invariant
                        0 <= ci <= cn,
                        cn == acc@.len(),
                        vi < vals@.len(),
                        vals.deep_view() == valsv,
                        vals@.len() == valsv.len(),
                        newacc.deep_view() =~= cross_one(
                            acc.deep_view(),
                            setting.id@,
                            valsv.subrange(0, vi as int),
                        ) + appended_all(
                            acc.deep_view().subrange(0, ci as int),
                            setting.id@,
                            valsv[vi as int],
                        ),
                    decreases cn - ci,
                {
                    let ghost olddeep = newacc.deep_view();
                    let ghost prevnew = newacc@;
                    let mut combo = clone_combination(&acc[ci]);
                    let ghost combo0 = combo@;
                    let idc = setting.id.clone();
                    let vc = vals[vi].clone();
                    proof {
                        assert(idc@ == setting.id@);
                        assert(vc@ == vals@[vi as int]@);
                        assert(valsv[vi as int] == vals@[vi as int].deep_view());
                        assert(olddeep.len() == prevnew.len());
                    }
                    combo.push((idc, vc));
                    let ghost target = acc.deep_view()[ci as int].push(
                        (setting.id@, valsv[vi as int]),
                    );
                    proof {
                        assert(acc.deep_view()[ci as int] == acc@[ci as int].deep_view());
                        assert forall|ii: int|
                            0 <= ii < combo.deep_view().len() implies #[trigger] combo.deep_view()[ii]
                            == target[ii] by {
                            if ii < combo0.len() {
                                assert(combo@[ii] == combo0[ii]);
                            } else {
                                assert(combo@[ii] == (idc, vc));
                            }
                        }
                        assert(combo.deep_view() =~= target);
                    }
                    newacc.push(combo);
                    proof {
                        let crossp = cross_one(acc.deep_view(), setting.id@, valsv.subrange(0, vi as int));
                        let rhs = crossp + appended_all(
                            acc.deep_view().subrange(0, ci as int + 1),
                            setting.id@,
                            valsv[vi as int],
                        );
                        assert(olddeep == crossp + appended_all(
                            acc.deep_view().subrange(0, ci as int),
                            setting.id@,
                            valsv[vi as int],
                        ));
                        assert(prevnew.len() == crossp.len() + ci);
                        assert(newacc@ == prevnew.push(combo));
                        assert forall|ii: int|
                            0 <= ii < newacc.deep_view().len() implies #[trigger] newacc.deep_view()[ii]
                            == rhs[ii] by {
                            if ii < prevnew.len() {
                                assert(newacc@[ii] == prevnew[ii]);
                                assert(newacc.deep_view()[ii] == prevnew[ii].deep_view());
                                assert(olddeep[ii] == prevnew[ii].deep_view());
                                if ii >= crossp.len() {
                                    assert(olddeep[ii] == acc.deep_view().subrange(
                                        0,
                                        ci as int,
                                    )[ii - crossp.len()].push((setting.id@, valsv[vi as int])));
                                    assert(rhs[ii] == acc.deep_view().subrange(
                                        0,
                                        ci as int + 1,
                                    )[ii - crossp.len()].push((setting.id@, valsv[vi as int])));
                                }
                            } else {
                                assert(newacc@[ii] == combo);
                                assert(newacc.deep_view()[ii] == combo.deep_view());
                                assert(rhs[ii] == acc.deep_view().subrange(
                                    0,
                                    ci as int + 1,
                                )[ci as int].push((setting.id@, valsv[vi as int])));
                                assert(combo.deep_view() == target);
                            }
                        }
                        assert(newacc.deep_view() =~= rhs);
                    }
                    ci = ci + 1;
                }
                proof {
                    assert(acc.deep_view().subrange(0, cn as int) =~= acc.deep_view());
                    assert(newacc.deep_view() =~= cross_one(acc.deep_view(), setting.id@, vcur));
                }
                vi = vi + 1;
            }
            proof {
                assert(valsv.subrange(0, vn as int) =~= valsv);
            }
            acc = newacc;
        }
        si = si + 1;
    }
    proof {
        assert(settings_config.build_settings@.subrange(0, n as int)
            =~= settings_config.build_settings@);
    }
    acc
}

/// The factor one setting contributes to the combination count.
pub open spec fn count_factor(setting: BuildSetting, entries: Seq<(String, RawValue)>) -> int {
    let c = candidates_spec(setting, entries).len();
    if c == 0 && is_optional(setting) {
        1
    } else {
        c as int
    }
}

/// The product of the settings' count factors, in schema order.
pub open spec fn expected_combo_count(
    settings: Seq<BuildSetting>,
    entries: Seq<(String, RawValue)>,
) -> int
    decreases settings.len(),
{
    if settings.len() == 0 {
        1
    } else {
        expected_combo_count(settings.drop_last(), entries) * count_factor(
            settings.last(),
            entries,
        )
    }
}

proof fn lemma_cross_one_len(acc: Seq<Seq<(Seq<char>, Seq<char>)>>, id: Seq<char>, vals: Seq<
    Seq<char>,
>)
    ensures
        cross_one(acc, id, vals).len() == acc.len() * vals.len(),
    decreases vals.len(),
{
    if vals.len() > 0 {
        lemma_cross_one_len(acc, id, vals.drop_last());
        assert(acc.len() * (vals.len() - 1) + acc.len() == acc.len() * vals.len()) by (nonlinear_arith);
    } else {
        assert(acc.len() * 0 == 0) by (nonlinear_arith);
    }
}

/// Law: the number of generated combinations is the product, over all
/// settings in schema order, of the setting's candidate count, where an
/// optional setting with zero candidates counts as one.
pub proof fn lemma_combination_count(settings: Seq<BuildSetting>, entries: Seq<(String, RawValue)>)
    ensures
        combos_prefix(settings, entries).len() == expected_combo_count(settings, entries),
    decreases settings.len(),
{
    if settings.len() > 0 {
        lemma_combination_count(settings.drop_last(), entries);
        let st = settings.last();
        let vals = candidates_spec(st, entries);
        if vals.len() == 0 && is_optional(st) {
        } else {
            lemma_cross_one_len(combos_prefix(settings.drop_last(), entries), st.id@, vals);
        }
    }
}

/// Law: a required setting with no candidates collapses the whole
/// product, so no combination is generated at all.
pub proof fn lemma_required_empty_yields_none(
    settings: Seq<BuildSetting>,
    entries: Seq<(String, RawValue)>,
    k: int,
)
    requires
        0 <= k < settings.len(),
        candidates_spec(settings[k], entries).len() == 0,
        !is_optional(settings[k]),
    ensures
        combos_prefix(settings, entries).len() == 0,
    decreases settings.len(),
{
    lemma_combination_count(settings, entries);
    let st = settings.last();
    if k == settings.len() - 1 {
        assert(count_factor(st, entries) == 0);
        assert(expected_combo_count(settings.drop_last(), entries) * 0 == 0) by (nonlinear_arith);
    } else {
        lemma_required_empty_yields_none(settings.drop_last(), entries, k);
        lemma_combination_count(settings.drop_last(), entries);
        assert(settings.drop_last()[k] == settings[k]);
        assert(0 * count_factor(st, entries) == 0) by (nonlinear_arith);
    }
}

} // verus!
