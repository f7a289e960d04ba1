//! The declarative settings schema and the values supplied against it.
//!
//! A schema is an ordered list of setting definitions; callers hand in a
//! raw value per setting id. Range settings carry their values as a
//! comma separated list of integers and integer spans, parsed and bound
//! checked by [`parse_range_string`].

use vstd::prelude::*;

use crate::strnum::{
    int_str, is_blank, is_blank_seq, parse_i32, parse_i32_spec, split_char_spec, split_on_char,
    str_eq, trim, trim_spec,
};
use crate::strnum::i32_to_string;

verus! {

/// One selectable option of a `select` or `checkbox_group` setting.
#[derive(Debug, Clone)]
pub struct BuildSettingOption {
    pub label: String,
    pub value: String,
    pub define: Option<String>,
    pub description: Option<String>,
}

/// Bounds a `range` setting validates against.
#[derive(Debug, Clone)]
pub struct RangeValidation {
    pub min: i32,
    pub max: i32,
}

/// One configurable build parameter of the schema.
#[derive(Debug, Clone)]
pub struct BuildSetting {
    pub id: String,
    pub label: String,
    pub value: String,
    pub description: String,
    pub field_type: String,
    pub format: String,
    pub define: Option<String>,
    pub options: Option<Vec<BuildSettingOption>>,
    pub validation: Option<RangeValidation>,
    pub exclusive: Option<bool>,
    pub min_selected: Option<i32>,
}

/// The ordered setting catalog, immutable for the duration of a run.
#[derive(Debug, Clone)]
pub struct BuildSettingsConfig {
    pub version: String,
    pub build_settings: Vec<BuildSetting>,
}

/// One element of a supplied list value.
#[derive(Debug, Clone)]
pub enum RawItem {
    /// A string element.
    Text(String),
    /// A numeric element; only its presence matters, never its value.
    Number,
    /// Anything else; contributes no candidate value.
    Other,
}

/// A raw value supplied for one setting: a string for `range` and
/// `select`, a list for `checkbox_group`.
#[derive(Debug, Clone)]
pub enum RawValue {
    Text(String),
    List(Vec<RawItem>),
    /// A value of any other shape; it yields no candidates.
    Other,
}

/// The value looked up in an association sequence: the first entry with
/// a matching key, if any.
pub open spec fn lookup_raw(entries: Seq<(String, RawValue)>, id: Seq<char>) -> Option<RawValue>
    decreases entries.len(),
{
    if entries.len() == 0 {
        None
    } else if entries[0].0@ == id {
        Some(entries[0].1)
    } else {
        lookup_raw(entries.drop_first(), id)
    }
}

/// The raw values supplied by the caller, keyed by setting id. Missing
/// keys are legal: optional settings may simply be absent.
#[derive(Debug, Clone)]
pub struct RawValueMap {
    pub entries: Vec<(String, RawValue)>,
}

impl RawValueMap {
    /// An empty value map.
    pub fn new() -> (r: RawValueMap)
        ensures
            r.entries@.len() == 0,
    {
        RawValueMap { entries: Vec::new() }
    }

    /// Adds a value under a key not yet present.
    pub fn insert(&mut self, id: String, value: RawValue)
        requires
            lookup_raw(old(self).entries@, id@) is None,
        ensures
            final(self).entries@ == old(self).entries@.push((id, value)),
    {
        self.entries.push((id, value));
    }

    /// Finds the value supplied for a setting id, if any.
    pub fn get(&self, id: &str) -> (r: Option<&RawValue>)
        ensures
            match r {
                Some(v) => lookup_raw(self.entries@, id@) == Some(*v),
                None => lookup_raw(self.entries@, id@) is None,
            },
    {
        let n = self.entries.len();
        let mut i: usize = 0;
        proof {
            assert(self.entries@.subrange(0, n as int) =~= self.entries@);
        }
        while i < n
            invariant
                0 <= i <= n,
                n == self.entries@.len(),
                forall|k: int| 0 <= k < i ==> (#[trigger] self.entries@[k].0@) != id@,
                lookup_raw(self.entries@, id@) == lookup_raw(
                    self.entries@.subrange(i as int, n as int),
                    id@,
                ),
            decreases n - i,
        {
            proof {
                let tail = self.entries@.subrange(i as int, n as int);
                assert(tail[0] == self.entries@[i as int]);
                assert(tail.drop_first() =~= self.entries@.subrange(i as int + 1, n as int));
            }
            if str_eq(self.entries[i].0.as_str(), id) {
                return Some(&self.entries[i].1);
            }
            i = i + 1;
        }
        proof {
            assert(self.entries@.subrange(n as int, n as int) =~= Seq::<(String, RawValue)>::empty());
        }
        None
    }
}

/// The string elements of a supplied list, blanks discarded, order kept.
pub open spec fn nonblank_strs(items: Seq<RawItem>) -> Seq<Seq<char>>
    decreases items.len(),
{
    if items.len() == 0 {
        Seq::<Seq<char>>::empty()
    } else {
        nonblank_strs(items.drop_last()) + (match items.last() {
            RawItem::Text(s) => if !is_blank_seq(s@) {
                seq![s@]
            } else {
                Seq::<Seq<char>>::empty()
            },
            _ => Seq::<Seq<char>>::empty(),
        })
    }
}

/// The string elements of a supplied list that are not blank.
pub fn nonblank_items(items: &Vec<RawItem>) -> (r: Vec<String>)
    ensures
        r.deep_view() == nonblank_strs(items@),
{
    let mut out: Vec<String> = Vec::new();
    let n = items.len();
    let mut k: usize = 0;
    proof {
        assert(items@.subrange(0, 0) =~= Seq::<RawItem>::empty());
        assert(out.deep_view() =~= nonblank_strs(items@.subrange(0, 0)));
    }
    while k < n
        invariant
            0 <= k <= n,
            n == items@.len(),
            out.deep_view() =~= nonblank_strs(items@.subrange(0, k as int)),
        decreases n - k,
    {
        proof {
            assert(items@.subrange(0, k as int + 1).drop_last() =~= items@.subrange(0, k as int));
            assert(items@.subrange(0, k as int + 1).last() == items@[k as int]);
        }
        match &items[k] {
            RawItem::Text(s) => {
                if !is_blank(s.as_str()) {
                    out.push(s.clone());
                    proof {
                        assert(out.deep_view() =~= nonblank_strs(items@.subrange(0, k as int + 1)));
                    }
                } else {
                    proof {
                        assert(out.deep_view() =~= nonblank_strs(items@.subrange(0, k as int + 1)));
                    }
                }
            },
            _ => {
                proof {
                    assert(out.deep_view() =~= nonblank_strs(items@.subrange(0, k as int + 1)));
                }
            },
        }
        k = k + 1;
    }
    proof {
        assert(items@.subrange(0, n as int) =~= items@);
    }
    out
}

/// The first schema setting with the given id, if any.
pub open spec fn find_setting(settings: Seq<BuildSetting>, id: Seq<char>) -> Option<BuildSetting>
    decreases settings.len(),
{
    if settings.len() == 0 {
        None
    } else if settings[0].id@ == id {
        Some(settings[0])
    } else {
        find_setting(settings.drop_first(), id)
    }
}

/// Finds the first schema setting with the given id.
pub fn find_setting_exec<'a>(settings: &'a Vec<BuildSetting>, id: &str) -> (r: Option<
    &'a BuildSetting,
>)
    ensures
        match r {
            Some(st) => find_setting(settings@, id@) == Some(*st),
            None => find_setting(settings@, id@) is None,
        },
{
    let n = settings.len();
    let mut i: usize = 0;
    proof {
        assert(settings@.subrange(0, n as int) =~= settings@);
    }
    while i < n
        invariant
            0 <= i <= n,
            n == settings@.len(),
            find_setting(settings@, id@) == find_setting(
                settings@.subrange(i as int, n as int),
                id@,
            ),
        decreases n - i,
    {
        proof {
            let tail = settings@.subrange(i as int, n as int);
            assert(tail[0] == settings@[i as int]);
            assert(tail.drop_first() =~= settings@.subrange(i as int + 1, n as int));
        }
        if str_eq(settings[i].id.as_str(), id) {
            return Some(&settings[i]);
        }
        i = i + 1;
    }
    proof {
        assert(settings@.subrange(n as int, n as int) =~= Seq::<BuildSetting>::empty());
    }
    None
}

/// Index of the first occurrence of `c` in `s`, or `s.len()` when absent.
pub open spec fn first_index_of(s: Seq<char>, c: char) -> int
    decreases s.len(),
{
    if s.len() == 0 {
        0
    } else if s[0] == c {
        0
    } else {
        1 + first_index_of(s.drop_first(), c)
    }
}

proof fn lemma_first_index_of(s: Seq<char>, c: char)
    ensures
        0 <= first_index_of(s, c) <= s.len(),
        first_index_of(s, c) < s.len() ==> s[first_index_of(s, c)] == c,
        forall|j: int| 0 <= j < first_index_of(s, c) ==> s[j] != c,
    decreases s.len(),
{
    if s.len() > 0 && s[0] != c {
        let d = s.drop_first();
        lemma_first_index_of(d, c);
        assert(first_index_of(s, c) == 1 + first_index_of(d, c));
        if first_index_of(s, c) < s.len() {
            assert(s[first_index_of(s, c)] == d[first_index_of(d, c)]);
        }
        assert forall|j: int| 0 <= j < first_index_of(s, c) implies s[j] != c by {
            if j > 0 {
                assert(s[j] == d[j - 1]);
                assert(d[j - 1] != c);
            }
        }
    }
}

/// What one comma separated token of a range string contributes.
pub enum PartOutcome {
    /// A blank token: skipped without effect.
    Skip,
    /// A valid single value or span, contributing `lo..=hi`.
    Span { lo: int, hi: int },
    /// A malformed or out-of-bounds token, with its error message.
    Fail { msg: Seq<char> },
}

pub open spec fn invalid_number_msg(tok: Seq<char>) -> Seq<char> {
    "Invalid number '"@ + tok + "'"@
}

pub open spec fn start_end_msg(lo: int, hi: int) -> Seq<char> {
    "Range start "@ + int_str(lo) + " > end "@ + int_str(hi)
}

pub open spec fn span_bounds_msg(lo: int, hi: int, min: int, max: int) -> Seq<char> {
    "Range "@ + int_str(lo) + "-"@ + int_str(hi) + " out of bounds ["@ + int_str(min) + ", "@
        + int_str(max) + "]"@
}

pub open spec fn value_bounds_msg(n: int, min: int, max: int) -> Seq<char> {
    "Value "@ + int_str(n) + " out of bounds ["@ + int_str(min) + ", "@ + int_str(max) + "]"@
}

/// How one raw token parses: blank tokens are skipped; a token with a
/// dash is a span whose two sides are parsed separately; anything else
/// is a single integer; every parsed value is checked against the
/// validation bounds.
pub open spec fn part_outcome(raw: Seq<char>, min: int, max: int) -> PartOutcome {
    let t = trim_spec(raw);
    if t.len() == 0 {
        PartOutcome::Skip
    } else if first_index_of(t, '-') < t.len() {
        let i = first_index_of(t, '-');
        let a = t.subrange(0, i);
        let b = t.subrange(i + 1, t.len() as int);
        if parse_i32_spec(trim_spec(a)) is None {
            PartOutcome::Fail { msg: invalid_number_msg(a) }
        } else if parse_i32_spec(trim_spec(b)) is None {
            PartOutcome::Fail { msg: invalid_number_msg(b) }
        } else {
            let lo = parse_i32_spec(trim_spec(a))->0;
            let hi = parse_i32_spec(trim_spec(b))->0;
            if lo > hi {
                PartOutcome::Fail { msg: start_end_msg(lo, hi) }
            } else if lo < min || hi > max {
                PartOutcome::Fail { msg: span_bounds_msg(lo, hi, min, max) }
            } else {
                PartOutcome::Span { lo, hi }
            }
        }
    } else {
        match parse_i32_spec(t) {
            Option::None => PartOutcome::Fail { msg: invalid_number_msg(t) },
            Option::Some(n) => if n < min || n > max {
                PartOutcome::Fail { msg: value_bounds_msg(n, min, max) }
            } else {
                PartOutcome::Span { lo: n, hi: n }
            },
        }
    }
}

/// The first error among the tokens, if any.
pub open spec fn range_error(parts: Seq<Seq<char>>, min: int, max: int) -> Option<Seq<char>>
    decreases parts.len(),
{
    if parts.len() == 0 {
        None
    } else {
        let pre = range_error(parts.drop_last(), min, max);
        if pre is Some {
            pre
        } else {
            match part_outcome(parts.last(), min, max) {
                PartOutcome::Fail { msg } => Some(msg),
                _ => None,
            }
        }
    }
}

/// Whether some token's span covers the integer `n`.
pub open spec fn range_includes(parts: Seq<Seq<char>>, min: int, max: int, n: int) -> bool
    decreases parts.len(),
{
    if parts.len() == 0 {
        false
    } else {
        range_includes(parts.drop_last(), min, max, n) || (match part_outcome(
            parts.last(),
            min,
            max,
        ) {
            PartOutcome::Span { lo, hi } => lo <= n <= hi,
            _ => false,
        })
    }
}

/// Covered either by an already processed token or by the part of the
/// current span inserted so far.
pub open spec fn covered_so_far(
    parts: Seq<Seq<char>>,
    min: int,
    max: int,
    lo: int,
    next: int,
    y: int,
) -> bool {
    range_includes(parts, min, max, y) || (lo <= y && y < next)
}

/// Strictly ascending: sorted with no duplicates.
pub open spec fn sorted_strict(s: Seq<i32>) -> bool {
    forall|i: int, j: int| 0 <= i < j < s.len() ==> s[i] < s[j]
}

proof fn lemma_range_error_extends(parts: Seq<Seq<char>>, k: int, min: int, max: int)
    requires
        0 <= k <= parts.len(),
        range_error(parts.subrange(0, k), min, max) is Some,
    ensures
        range_error(parts, min, max) == range_error(parts.subrange(0, k), min, max),
    decreases parts.len(),
{
    if k == parts.len() {
        assert(parts.subrange(0, k) =~= parts);
    } else {
        assert(parts.drop_last().subrange(0, k) =~= parts.subrange(0, k));
        lemma_range_error_extends(parts.drop_last(), k, min, max);
    }
}

fn msg_invalid_number(tok: &str) -> (r: String)
    ensures
        r@ == invalid_number_msg(tok@),
{
    let mut m = String::new();
    m.append("Invalid number '");
    m.append(tok);
    m.append("'");
    proof {
        assert(m@ =~= invalid_number_msg(tok@));
    }
    m
}

fn msg_start_end(lo: i32, hi: i32) -> (r: String)
    ensures
        r@ == start_end_msg(lo as int, hi as int),
{
    let mut m = String::new();
    m.append("Range start ");
    let a = i32_to_string(lo);
    m.append(a.as_str());
    m.append(" > end ");
    let b = i32_to_string(hi);
    m.append(b.as_str());
    proof {
        assert(m@ =~= start_end_msg(lo as int, hi as int));
    }
    m
}

fn msg_span_bounds(lo: i32, hi: i32, min: i32, max: i32) -> (r: String)
    ensures
        r@ == span_bounds_msg(lo as int, hi as int, min as int, max as int),
{
    let mut m = String::new();
    m.append("Range ");
    let a = i32_to_string(lo);
    m.append(a.as_str());
    m.append("-");
    let b = i32_to_string(hi);
    m.append(b.as_str());
    m.append(" out of bounds [");
    let c = i32_to_string(min);
    m.append(c.as_str());
    m.append(", ");
    let d = i32_to_string(max);
    m.append(d.as_str());
    m.append("]");
    proof {
        assert(m@ =~= span_bounds_msg(lo as int, hi as int, min as int, max as int));
    }
    m
}

fn msg_value_bounds(n: i32, min: i32, max: i32) -> (r: String)
    ensures
        r@ == value_bounds_msg(n as int, min as int, max as int),
{
    let mut m = String::new();
    m.append("Value ");
    let a = i32_to_string(n);
    m.append(a.as_str());
    m.append(" out of bounds [");
    let c = i32_to_string(min);
    m.append(c.as_str());
    m.append(", ");
    let d = i32_to_string(max);
    m.append(d.as_str());
    m.append("]");
    proof {
        assert(m@ =~= value_bounds_msg(n as int, min as int, max as int));
    }
    m
}

fn insert_sorted(v: &mut Vec<i32>, x: i32)
    requires
        sorted_strict(old(v)@),
    ensures
        sorted_strict(final(v)@),
        forall|y: i32| #[trigger] final(v)@.contains(y) <==> (old(v)@.contains(y) || y == x),
{
    let n = v.len();
    let mut i: usize = 0;
    while i < n && v[i] < x
        invariant
            0 <= i <= n,
            n == v@.len(),
            v@ == old(v)@,
            sorted_strict(v@),
            forall|k: int| 0 <= k < i ==> v@[k] < x,
        decreases n - i,
    {
        i = i + 1;
    }
    if i < n && v[i] == x {
        proof {
            assert(v@.contains(x)) by {
                assert(v@[i as int] == x);
            }
            assert(forall|y: i32| #[trigger] v@.contains(y) <==> (old(v)@.contains(y) || y == x));
        }
        return ;
    }
    let ghost pre = v@;
    v.insert(i, x);
    proof {
        assert(v@ =~= pre.subrange(0, i as int) + seq![x] + pre.subrange(i as int, n as int));
        assert forall|a: int, b: int| 0 <= a < b < v@.len() implies v@[a] < v@[b] by {
            if b < i {
                assert(v@[a] == pre[a] && v@[b] == pre[b]);
            } else if a > i {
                assert(v@[a] == pre[a - 1] && v@[b] == pre[b - 1]);
            } else if a < i && b == i {
                assert(v@[a] == pre[a] && v@[b] == x);
            } else if a == i && b > i {
                assert(v@[a] == x && v@[b] == pre[b - 1]);
                assert(pre[b - 1] >= pre[i as int] > x || (i == n && false) || pre[b - 1]
                    > pre[i as int]);
                assert(i < n ==> pre[i as int] >= x && pre[i as int] != x);
            } else if a < i && b > i {
                assert(v@[a] == pre[a] && v@[b] == pre[b - 1]);
                assert(i < n ==> pre[i as int] > x);
            }
        }
        assert forall|y: i32| #[trigger] v@.contains(y) implies (pre.contains(y) || y == x) by {
            let idx = choose|idx: int| 0 <= idx < v@.len() && v@[idx] == y;
            if idx < i {
                assert(pre[idx] == y);
            } else if idx == i {
            } else {
                assert(pre[idx - 1] == y);
            }
        }
        assert forall|y: i32| (pre.contains(y) || y == x) implies #[trigger] v@.contains(y) by {
            if y == x {
                assert(v@[i as int] == x);
            } else if pre.contains(y) {
                let idx = choose|idx: int| 0 <= idx < pre.len() && pre[idx] == y;
                if idx < i {
                    assert(v@[idx] == y);
                } else {
                    assert(v@[idx + 1] == y);
                }
            }
        }
    }
}

/// Parses a comma separated list of integers and integer spans
/// (`"4,7-9,12"`) into the ascending, duplicate free list of included
/// integers, each validated against `[min, max]`. A blank token is
/// skipped; the first malformed or out-of-bounds token fails the whole
/// parse with its message, yielding no partial list.
pub fn parse_range_string(range_str: &str, min: i32, max: i32) -> (r: Result<Vec<i32>, String>)
    ensures
        (r is Ok) == (range_error(split_char_spec(range_str@, ','), min as int, max as int)
            is None),
        r matches Ok(v) ==> sorted_strict(v@),
        r matches Ok(v) ==> forall|y: i32|
            #[trigger] v@.contains(y) <==> range_includes(
                split_char_spec(range_str@, ','),
                min as int,
                max as int,
                y as int,
            ),
        r matches Err(m) ==> Some(m@) == range_error(
            split_char_spec(range_str@, ','),
            min as int,
            max as int,
        ),
{
    let parts = split_on_char(range_str, ',');
    let ghost pviews = split_char_spec(range_str@, ',');
    let mut result: Vec<i32> = Vec::new();
    let n = parts.len();
    let mut idx: usize = 0;
    proof {
        assert(pviews.subrange(0, 0) =~= Seq::<Seq<char>>::empty());
    }
    while idx < n
        invariant
            0 <= idx <= n,
            n == parts@.len(),
            parts@.map_values(|p: &str| p@) == pviews,
            pviews == split_char_spec(range_str@, ','),
            range_error(pviews.subrange(0, idx as int), min as int, max as int) is None,
            sorted_strict(result@),
            forall|y: i32|
                #[trigger] result@.contains(y) <==> range_includes(
                    pviews.subrange(0, idx as int),
                    min as int,
                    max as int,
                    y as int,
                ),
        decreases n - idx,
    {
        let part: &str = parts[idx];
        let ghost pre = pviews.subrange(0, idx as int);
        let ghost cur = pviews.subrange(0, idx as int + 1);
        proof {
            assert(cur.drop_last() =~= pre);
            assert(cur.last() == pviews[idx as int]);
            assert(parts@.map_values(|p: &str| p@)[idx as int] == part@);
        }
        let t = trim(part);
        let tn = t.unicode_len();
        if tn == 0 {
            proof {
                assert(part_outcome(part@, min as int, max as int) == PartOutcome::Skip);
            }
            idx = idx + 1;
            continue ;
        }
        let mut di: usize = 0;
        while di < tn && t.get_char(di) != '-'
            invariant
                0 <= di <= tn,
                tn == t@.len(),
                forall|j: int| 0 <= j < di ==> t@[j] != '-',
            decreases tn - di,
        {
            di = di + 1;
        }
        proof {
            lemma_first_index_of(t@, '-');
            if di < tn {
                assert(t@[di as int] == '-');
                assert(first_index_of(t@, '-') == di as int) by {
                    let f = first_index_of(t@, '-');
                    if f < di as int {
                        assert(t@[f] != '-');
                    }
                    if f > di as int {
                        assert(t@[di as int] != '-');
                    }
                }
            } else {
                assert(first_index_of(t@, '-') == tn as int) by {
                    let f = first_index_of(t@, '-');
                    if f < tn as int {
                        assert(t@[f] != '-');
                    }
                }
            }
        }
        if di < tn {
            let a = t.substring_char(0, di);
            let b = t.substring_char(di + 1, tn);
            let at = trim(a);
            let bt = trim(b);
            let lo_opt = parse_i32(at);
            if lo_opt.is_none() {
                let m = msg_invalid_number(a);
                proof {
                    assert(part_outcome(part@, min as int, max as int) == (PartOutcome::Fail {
                        msg: invalid_number_msg(a@),
                    }));
                    assert(range_error(cur, min as int, max as int) == Some(m@));
                    lemma_range_error_extends(pviews, idx as int + 1, min as int, max as int);
                }
                return Err(m);
            }
            let lo = lo_opt.unwrap();
            let hi_opt = parse_i32(bt);
            if hi_opt.is_none() {
                let m = msg_invalid_number(b);
                proof {
                    assert(part_outcome(part@, min as int, max as int) == (PartOutcome::Fail {
                        msg: invalid_number_msg(b@),
                    }));
                    assert(range_error(cur, min as int, max as int) == Some(m@));
                    lemma_range_error_extends(pviews, idx as int + 1, min as int, max as int);
                }
                return Err(m);
            }
            let hi = hi_opt.unwrap();
            if lo > hi {
                let m = msg_start_end(lo, hi);
                proof {
                    assert(range_error(cur, min as int, max as int) == Some(m@));
                    lemma_range_error_extends(pviews, idx as int + 1, min as int, max as int);
                }
                return Err(m);
            }
            if lo < min || hi > max {
                let m = msg_span_bounds(lo, hi, min, max);
                proof {
                    assert(range_error(cur, min as int, max as int) == Some(m@));
                    lemma_range_error_extends(pviews, idx as int + 1, min as int, max as int);
                }
                return Err(m);
            }
            proof {
                assert(part_outcome(part@, min as int, max as int) == (PartOutcome::Span {
                    lo: lo as int,
                    hi: hi as int,
                }));
            }
            let mut cv: i64 = lo as i64;
            while cv <= hi as i64
                invariant
                    lo as int <= cv <= hi as int + 1,
                    sorted_strict(result@),
                    forall|y: i32|
                        (#[trigger] result@.contains(y)) <==> covered_so_far(
                            pre,
                            min as int,
                            max as int,
                            lo as int,
                            cv as int,
                            y as int,
                        ),
                decreases hi as int + 1 - cv,
            {
                insert_sorted(&mut result, cv as i32);
                cv = cv + 1;
            }
        } else {
            let nv_opt = parse_i32(t);
            if nv_opt.is_none() {
                let m = msg_invalid_number(t);
                proof {
                    assert(part_outcome(part@, min as int, max as int) == (PartOutcome::Fail {
                        msg: invalid_number_msg(t@),
                    }));
                    assert(range_error(cur, min as int, max as int) == Some(m@));
                    lemma_range_error_extends(pviews, idx as int + 1, min as int, max as int);
                }
                return Err(m);
            }
            let nv = nv_opt.unwrap();
            if nv < min || nv > max {
                let m = msg_value_bounds(nv, min, max);
                proof {
                    assert(range_error(cur, min as int, max as int) == Some(m@));
                    lemma_range_error_extends(pviews, idx as int + 1, min as int, max as int);
                }
                return Err(m);
            }
            proof {
                assert(part_outcome(part@, min as int, max as int) == (PartOutcome::Span {
                    lo: nv as int,
                    hi: nv as int,
                }));
            }
            insert_sorted(&mut result, nv);
        }
        idx = idx + 1;
    }
    proof {
        assert(pviews.subrange(0, n as int) =~= pviews);
    }
    Ok(result)
}

/// Every included integer lies within the validation bounds.
pub proof fn lemma_includes_bounds(parts: Seq<Seq<char>>, min: int, max: int, n: int)
    requires
        range_includes(parts, min, max, n),
    ensures
        min <= n <= max,
    decreases parts.len(),
{
    if parts.len() > 0 {
        if range_includes(parts.drop_last(), min, max, n) {
            lemma_includes_bounds(parts.drop_last(), min, max, n);
        }
    }
}

/// Whether the parsed range tokens include at least one integer.
pub open spec fn range_has_values(parts: Seq<Seq<char>>, min: int, max: int) -> bool {
    exists|n: i32| range_includes(parts, min, max, n as int)
}

pub open spec fn setting_not_found_msg(id: Seq<char>) -> Seq<char> {
    "Setting "@ + id + " not found in configuration"@
}

pub open spec fn expected_string_range_msg(id: Seq<char>) -> Seq<char> {
    "Expected string for range setting "@ + id
}

pub open spec fn no_values_msg(id: Seq<char>) -> Seq<char> {
    "No values provided for range '"@ + id + "'"@
}

pub open spec fn expected_string_select_msg(id: Seq<char>) -> Seq<char> {
    "Expected string for select setting "@ + id
}

pub open spec fn expected_array_msg(id: Seq<char>) -> Seq<char> {
    "Expected array for checkbox_group setting "@ + id
}

/// One option value, quoted for the valid-options listing.
pub open spec fn quoted(v: Seq<char>) -> Seq<char> {
    "\""@ + v + "\""@
}

/// The quoted option values, comma separated.
pub open spec fn options_list_inner(opts: Seq<BuildSettingOption>) -> Seq<char>
    decreases opts.len(),
{
    if opts.len() == 0 {
        Seq::<char>::empty()
    } else if opts.len() == 1 {
        quoted(opts[0].value@)
    } else {
        options_list_inner(opts.drop_last()) + ", "@ + quoted(opts.last().value@)
    }
}

/// The valid-options listing, bracketed.
pub open spec fn options_list_str(opts: Seq<BuildSettingOption>) -> Seq<char> {
    "["@ + options_list_inner(opts) + "]"@
}

pub open spec fn invalid_option_msg(
    v: Seq<char>,
    id: Seq<char>,
    opts: Seq<BuildSettingOption>,
) -> Seq<char> {
    "Invalid value '"@ + v + "' for "@ + id + ". Valid options: "@ + options_list_str(opts)
}

pub open spec fn too_few_msg(id: Seq<char>, count: int, m: int) -> Seq<char> {
    "Too few selections for "@ + id + ": "@ + int_str(count) + ". Minimum required: "@ + int_str(m)
}

/// Whether some declared option carries this value.
pub open spec fn option_values_contain(opts: Seq<BuildSettingOption>, v: Seq<char>) -> bool {
    exists|i: int| 0 <= i < opts.len() && (#[trigger] opts[i]).value@ == v
}

/// The first supplied value no declared option carries, if any.
pub open spec fn first_not_in_options(vals: Seq<Seq<char>>, opts: Seq<BuildSettingOption>) -> Option<
    Seq<char>,
>
    decreases vals.len(),
{
    if vals.len() == 0 {
        None
    } else {
        let pre = first_not_in_options(vals.drop_last(), opts);
        if pre is Some {
            pre
        } else if !option_values_contain(opts, vals.last()) {
            Some(vals.last())
        } else {
            None
        }
    }
}

fn option_contains_exec(opts: &Vec<BuildSettingOption>, v: &str) -> (r: bool)
    ensures
        r == option_values_contain(opts@, v@),
{
    let n = opts.len();
    let mut i: usize = 0;
    while i < n
        invariant
            0 <= i <= n,
            n == opts@.len(),
            forall|k: int| 0 <= k < i ==> (#[trigger] opts@[k]).value@ != v@,
        decreases n - i,
    {
        if str_eq(opts[i].value.as_str(), v) {
            return true;
        }
        i = i + 1;
    }
    false
}

fn options_list_exec(opts: &Vec<BuildSettingOption>) -> (r: String)
    ensures
        r@ == options_list_str(opts@),
{
    let mut m = String::new();
    m.append("[");
    let n = opts.len();
    let mut i: usize = 0;
    proof {
        assert(opts@.subrange(0, 0) =~= Seq::<BuildSettingOption>::empty());
        assert(m@ =~= "["@ + options_list_inner(opts@.subrange(0, 0)));
    }
    while i < n
        invariant
            0 <= i <= n,
            n == opts@.len(),
            m@ == "["@ + options_list_inner(opts@.subrange(0, i as int)),
        decreases n - i,
    {
        proof {
            assert(opts@.subrange(0, i as int + 1).drop_last() =~= opts@.subrange(0, i as int));
            assert(opts@.subrange(0, i as int + 1).last() == opts@[i as int]);
            assert(opts@.subrange(0, i as int + 1)[0] == opts@[0]);
        }
        if i > 0 {
            m.append(", ");
        }
        m.append("\"");
        m.append(opts[i].value.as_str());
        m.append("\"");
        proof {
            assert(m@ =~= "["@ + options_list_inner(opts@.subrange(0, i as int + 1)));
        }
        i = i + 1;
    }
    m.append("]");
    proof {
        assert(opts@.subrange(0, n as int) =~= opts@);
        assert(m@ =~= options_list_str(opts@));
    }
    m
}

fn msg_setting_not_found(id: &str) -> (r: String)
    ensures
        r@ == setting_not_found_msg(id@),
{
    let mut m = String::new();
    m.append("Setting ");
    m.append(id);
    m.append(" not found in configuration");
    proof {
        assert(m@ =~= setting_not_found_msg(id@));
    }
    m
}

fn msg_expected(prefix: &str, id: &str) -> (r: String)
    ensures
        r@ == prefix@ + id@,
{
    let mut m = String::new();
    m.append(prefix);
    m.append(id);
    proof {
        assert(m@ =~= prefix@ + id@);
    }
    m
}

fn msg_no_values(id: &str) -> (r: String)
    ensures
        r@ == no_values_msg(id@),
{
    let mut m = String::new();
    m.append("No values provided for range '");
    m.append(id);
    m.append("'");
    proof {
        assert(m@ =~= no_values_msg(id@));
    }
    m
}

fn msg_invalid_option(v: &str, id: &str, opts: &Vec<BuildSettingOption>) -> (r: String)
    ensures
        r@ == invalid_option_msg(v@, id@, opts@),
{
    let mut m = String::new();
    m.append("Invalid value '");
    m.append(v);
    m.append("' for ");
    m.append(id);
    m.append(". Valid options: ");
    let lst = options_list_exec(opts);
    m.append(lst.as_str());
    proof {
        assert(m@ =~= invalid_option_msg(v@, id@, opts@));
    }
    m
}

fn msg_too_few(id: &str, count: usize, min_sel: i32) -> (r: String)
    ensures
        r@ == too_few_msg(id@, count as int, min_sel as int),
{
    let mut m = String::new();
    m.append("Too few selections for ");
    m.append(id);
    m.append(": ");
    let c = crate::strnum::u64_to_string(count as u64);
    m.append(c.as_str());
    m.append(". Minimum required: ");
    let ms = i32_to_string(min_sel);
    m.append(ms.as_str());
    proof {
        assert(m@ =~= too_few_msg(id@, count as int, min_sel as int));
    }
    m
}

proof fn lemma_first_not_extends(vals: Seq<Seq<char>>, opts: Seq<BuildSettingOption>, k: int)
    requires
        0 <= k <= vals.len(),
        first_not_in_options(vals.subrange(0, k), opts) is Some,
    ensures
        first_not_in_options(vals, opts) == first_not_in_options(vals.subrange(0, k), opts),
    decreases vals.len(),
{
    if k == vals.len() {
        assert(vals.subrange(0, k) =~= vals);
    } else {
        assert(vals.drop_last().subrange(0, k) =~= vals.subrange(0, k));
        lemma_first_not_extends(vals.drop_last(), opts, k);
    }
}

/// The validation verdict for one supplied value: `None` when the value
/// passes its setting's field-type rules, the exact error message
/// otherwise. An id absent from the schema, a value of the wrong shape,
/// a malformed or out-of-bounds range string, a value no option
/// declares, and a selection count below the required floor each yield
/// their own message.
pub open spec fn validate_outcome(
    cfg: BuildSettingsConfig,
    id: Seq<char>,
    value: RawValue,
) -> Option<Seq<char>> {
    match find_setting(cfg.build_settings@, id) {
        None => Some(setting_not_found_msg(id)),
        Some(st) => {
            if st.field_type@ == "range"@ {
                match st.validation {
                    Some(v) => match value {
                        RawValue::Text(s) => {
                            let parts = split_char_spec(s@, ',');
                            match range_error(parts, v.min as int, v.max as int) {
                                Some(m) => Some(m),
                                None => if !range_has_values(parts, v.min as int, v.max as int) {
                                    Some(no_values_msg(id))
                                } else {
                                    None
                                },
                            }
                        },
                        _ => Some(expected_string_range_msg(id)),
                    },
                    None => None,
                }
            } else if st.field_type@ == "select"@ {
                match st.options {
                    Some(opts) => match value {
                        RawValue::Text(s) => if option_values_contain(opts@, s@) {
                            None
                        } else {
                            Some(invalid_option_msg(s@, id, opts@))
                        },
                        _ => Some(expected_string_select_msg(id)),
                    },
                    None => None,
                }
            } else if st.field_type@ == "checkbox_group"@ {
                match st.options {
                    Some(opts) => match value {
                        RawValue::List(items) => {
                            let vals = nonblank_strs(items@);
                            match first_not_in_options(vals, opts@) {
                                Some(bad) => Some(invalid_option_msg(bad, id, opts@)),
                                None => match st.min_selected {
                                    Some(m) => if (vals.len() as int) < m {
                                        Some(too_few_msg(id, vals.len() as int, m as int))
                                    } else {
                                        None
                                    },
                                    None => None,
                                },
                            }
                        },
                        _ => Some(expected_array_msg(id)),
                    },
                    None => None,
                }
            } else {
                None
            }
        },
    }
}

impl BuildSettingsConfig {
    /// Checks one supplied value against its setting's field-type rules:
    /// range strings must parse within their bounds and denote at least
    /// one integer, `select` and `checkbox_group` values must be among
    /// the declared options, and a `checkbox_group` must reach its
    /// required selection floor.
    pub fn validate_setting(&self, id: &str, value: &RawValue) -> (r: Result<(), String>)
        ensures
            (r is Ok) == (validate_outcome(*self, id@, *value) is None),
            r matches Err(m) ==> Some(m@) == validate_outcome(*self, id@, *value),
    {
        let st = match find_setting_exec(&self.build_settings, id) {
            Some(st) => st,
            None => {
                return Err(msg_setting_not_found(id));
            },
        };
        if str_eq(st.field_type.as_str(), "range") {
            match &st.validation {
                Some(v) => match value {
                    RawValue::Text(s) => match parse_range_string(s.as_str(), v.min, v.max) {
                        Ok(nums) => {
                            let ghost parts = split_char_spec(s@, ',');
                            if nums.len() == 0 {
                                proof {
                                    assert forall|n: i32|
                                        !range_includes(
                                            parts,
                                            v.min as int,
                                            v.max as int,
                                            n as int,
                                        ) by {
                                        assert(!nums@.contains(n));
                                    }
                                }
                                Err(msg_no_values(id))
                            } else {
                                proof {
                                    assert(nums@.contains(nums@[0])) by {
                                        assert(nums@[0] == nums@[0]);
                                    }
                                    assert(range_has_values(parts, v.min as int, v.max as int));
                                }
                                Ok(())
                            }
                        },
                        Err(m) => Err(m),
                    },
                    _ => Err(msg_expected("Expected string for range setting ", id)),
                },
                None => Ok(()),
            }
        } else if str_eq(st.field_type.as_str(), "select") {
            match &st.options {
                Some(opts) => match value {
                    RawValue::Text(s) => {
                        if option_contains_exec(opts, s.as_str()) {
                            Ok(())
                        } else {
                            Err(msg_invalid_option(s.as_str(), id, opts))
                        }
                    },
                    _ => Err(msg_expected("Expected string for select setting ", id)),
                },
                None => Ok(()),
            }
        } else if str_eq(st.field_type.as_str(), "checkbox_group") {
            match &st.options {
                Some(opts) => match value {
                    RawValue::List(items) => {
                        let vals = nonblank_items(items);
                        let ghost valsv = nonblank_strs(items@);
                        let n = vals.len();
                        let mut i: usize = 0;
                        proof {
                            assert(valsv.subrange(0, 0) =~= Seq::<Seq<char>>::empty());
                        }
                        while i < n
                            invariant
                                0 <= i <= n,
                                n == vals@.len(),
                                vals.deep_view() == valsv,
                                first_not_in_options(valsv.subrange(0, i as int), opts@) is None,
                                find_setting(self.build_settings@, id@) == Some(*st),
                                st.field_type@ == "checkbox_group"@,
                                st.field_type@ != "range"@,
                                st.field_type@ != "select"@,
                                st.options == Some(*opts),
                                *value == RawValue::List(*items),
                                valsv == nonblank_strs(items@),
                            decreases n - i,
                        {
                            proof {
                                assert(valsv.subrange(0, i as int + 1).drop_last()
                                    =~= valsv.subrange(0, i as int));
                                assert(valsv.subrange(0, i as int + 1).last() == valsv[i as int]);
                            }
                            if !option_contains_exec(opts, vals[i].as_str()) {
                                let m = msg_invalid_option(vals[i].as_str(), id, opts);
                                proof {
                                    assert(first_not_in_options(
                                        valsv.subrange(0, i as int + 1),
                                        opts@,
                                    ) == Some(valsv[i as int]));
                                    lemma_first_not_extends(valsv, opts@, i as int + 1);
                                }
                                return Err(m);
                            }
                            i = i + 1;
                        }
                        proof {
                            assert(valsv.subrange(0, n as int) =~= valsv);
                        }
                        match st.min_selected {
                            Some(m) => {
                                if m > 0 && vals.len() < (m as usize) {
                                    Err(msg_too_few(id, vals.len(), m))
                                } else {
                                    Ok(())
                                }
                            },
                            None => Ok(()),
                        }
                    },
                    _ => Err(msg_expected("Expected array for checkbox_group setting ", id)),
                },
                None => Ok(()),
            }
        } else {
            Ok(())
        }
    }
}

} // verus!
