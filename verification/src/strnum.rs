//! Characters, decimal numerals and small string utilities.
//!
//! Range settings are written as comma separated lists of integers and
//! integer spans, and resolved setting values are carried as decimal
//! strings; this module provides the verified conversions between the
//! two, plus trimming and splitting over character sequences.

use vstd::prelude::*;

verus! {

/// A decimal digit.
pub open spec fn is_digit(c: char) -> bool {
    48 <= c as int && c as int <= 57
}

/// Numeric value of a decimal digit character.
pub open spec fn digit_val(c: char) -> int {
    c as int - 48
}

/// The character for a single decimal digit value.
pub open spec fn digit_char(d: int) -> char {
    if d == 0 {
        '0'
    } else if d == 1 {
        '1'
    } else if d == 2 {
        '2'
    } else if d == 3 {
        '3'
    } else if d == 4 {
        '4'
    } else if d == 5 {
        '5'
    } else if d == 6 {
        '6'
    } else if d == 7 {
        '7'
    } else if d == 8 {
        '8'
    } else {
        '9'
    }
}

/// Decimal numeral of a non-negative integer, without sign or padding.
pub open spec fn dec_str(n: int) -> Seq<char>
    decreases n,
{
    if n < 10 {
        seq![digit_char(n)]
    } else {
        dec_str(n / 10).push(digit_char(n % 10))
    }
}

/// Decimal numeral of an integer, with a leading minus sign when negative.
pub open spec fn int_str(n: int) -> Seq<char> {
    if n < 0 {
        seq!['-'] + dec_str(-n)
    } else {
        dec_str(n)
    }
}

/// Every character of the sequence is a decimal digit.
pub open spec fn all_digits(s: Seq<char>) -> bool {
    forall|i: int| 0 <= i < s.len() ==> is_digit(#[trigger] s[i])
}

/// Value of a digit sequence read as a decimal numeral.
pub open spec fn dec_val(s: Seq<char>) -> int
    decreases s.len(),
{
    if s.len() == 0 {
        0
    } else {
        dec_val(s.drop_last()) * 10 + digit_val(s.last())
    }
}

/// What `str::parse::<i32>` accepts and returns: an optional sign, then
/// at least one digit, with the value within the 32-bit signed range.
pub open spec fn parse_i32_spec(s: Seq<char>) -> Option<int> {
    let signed = s.len() > 0 && (s[0] == '+' || s[0] == '-');
    let body = if signed {
        s.drop_first()
    } else {
        s
    };
    let neg = s.len() > 0 && s[0] == '-';
    if body.len() > 0 && all_digits(body) {
        let v = if neg {
            -dec_val(body)
        } else {
            dec_val(body)
        };
        if -2147483648 <= v && v <= 2147483647 {
            Some(v)
        } else {
            None
        }
    } else {
        None
    }
}

fn digit_str(d: u32) -> (r: &'static str)
    requires
        d < 10,
    ensures
        r@ == seq![digit_char(d as int)],
{
    if d == 0 {
        proof { reveal_strlit("0"); }
        let r = "0";
        assert(r@ =~= seq![digit_char(d as int)]);
        r
    } else if d == 1 {
        proof { reveal_strlit("1"); }
        let r = "1";
        assert(r@ =~= seq![digit_char(d as int)]);
        r
    } else if d == 2 {
        proof { reveal_strlit("2"); }
        let r = "2";
        assert(r@ =~= seq![digit_char(d as int)]);
        r
    } else if d == 3 {
        proof { reveal_strlit("3"); }
        let r = "3";
        assert(r@ =~= seq![digit_char(d as int)]);
        r
    } else if d == 4 {
        proof { reveal_strlit("4"); }
        let r = "4";
        assert(r@ =~= seq![digit_char(d as int)]);
        r
    } else if d == 5 {
        proof { reveal_strlit("5"); }
        let r = "5";
        assert(r@ =~= seq![digit_char(d as int)]);
        r
    } else if d == 6 {
        proof { reveal_strlit("6"); }
        let r = "6";
        assert(r@ =~= seq![digit_char(d as int)]);
        r
    } else if d == 7 {
        proof { reveal_strlit("7"); }
        let r = "7";
        assert(r@ =~= seq![digit_char(d as int)]);
        r
    } else if d == 8 {
        proof { reveal_strlit("8"); }
        let r = "8";
        assert(r@ =~= seq![digit_char(d as int)]);
        r
    } else {
        proof { reveal_strlit("9"); }
        let r = "9";
        assert(r@ =~= seq![digit_char(d as int)]);
        r
    }
}

/// Decimal rendering of an unsigned 32-bit integer.
pub fn u32_to_string(n: u32) -> (r: String)
    ensures
        r@ == dec_str(n as int),
    decreases n,
{
    if n < 10 {
        let mut s = String::new();
        s.append(digit_str(n));
        assert(s@ =~= dec_str(n as int));
        s
    } else {
        let mut s = u32_to_string(n / 10);
        s.append(digit_str(n % 10));
        assert(s@ =~= dec_str(n as int));
        s
    }
}

/// Decimal rendering of a signed 32-bit integer, minus sign included.
pub fn i32_to_string(n: i32) -> (r: String)
    ensures
        r@ == int_str(n as int),
{
    if n >= 0 {
        u32_to_string(n as u32)
    } else {
        let mag: u32 = (-(n as i64)) as u32;
        proof { reveal_strlit("-"); }
        let mut s = String::new();
        s.append("-");
        let digits = u32_to_string(mag);
        s.append(digits.as_str());
        assert(s@ =~= int_str(n as int));
        s
    }
}

/// Decimal rendering of an unsigned 64-bit integer.
pub fn u64_to_string(n: u64) -> (r: String)
    ensures
        r@ == dec_str(n as int),
    decreases n,
{
    if n < 10 {
        let mut s = String::new();
        s.append(digit_str(n as u32));
        assert(s@ =~= dec_str(n as int));
        s
    } else {
        let mut s = u64_to_string(n / 10);
        s.append(digit_str((n % 10) as u32));
        assert(s@ =~= dec_str(n as int));
        s
    }
}

proof fn lemma_dec_val_bounds(s: Seq<char>)
    requires
        all_digits(s),
    ensures
        dec_val(s) >= 0,
    decreases s.len(),
{
    if s.len() > 0 {
        assert(all_digits(s.drop_last()));
        lemma_dec_val_bounds(s.drop_last());
    }
}

proof fn lemma_dec_val_prefix(t: Seq<char>, k: int)
    requires
        all_digits(t),
        0 <= k <= t.len(),
    ensures
        dec_val(t) >= dec_val(t.subrange(0, k)),
    decreases t.len(),
{
    lemma_dec_val_bounds(t);
    if k == t.len() {
        assert(t.subrange(0, k) =~= t);
    } else {
        let dl = t.drop_last();
        assert(all_digits(dl));
        lemma_dec_val_bounds(dl);
        lemma_dec_val_prefix(dl, k);
        assert(dl.subrange(0, k) =~= t.subrange(0, k));
        assert(dec_val(t) == dec_val(dl) * 10 + digit_val(t.last()));
        assert(is_digit(t[t.len() - 1]));
    }
}

/// Parses a decimal integer exactly as `str::parse::<i32>` does.
pub fn parse_i32(s: &str) -> (r: Option<i32>)
    ensures
        r is Some ==> parse_i32_spec(s@) == Some(r->0 as int),
        r is None ==> parse_i32_spec(s@) is None,
{
    let n = s.unicode_len();
    let mut i: usize = 0;
    let mut neg = false;
    if n > 0 {
        let c0 = s.get_char(0);
        if c0 == '-' {
            neg = true;
            i = 1;
        } else if c0 == '+' {
            i = 1;
        }
    }
    let ghost body = s@.subrange(i as int, n as int);
    proof {
        if i == 1 {
            assert(body =~= s@.drop_first());
        } else {
            assert(body =~= s@);
        }
    }
    if i >= n {
        assert(body.len() == 0);
        return None;
    }
    let mut acc: i64 = 0;
    let mut j: usize = i;
    while j < n
        invariant
            i <= j <= n,
            i <= 1,
            n == s@.len(),
            body == s@.subrange(i as int, n as int),
            i == 1 ==> body == s@.drop_first() && (s@[0] == '-' || s@[0] == '+'),
            i == 0 ==> body == s@ && !(s@.len() > 0 && (s@[0] == '-' || s@[0] == '+')),
            neg == (s@.len() > 0 && s@[0] == '-'),
            all_digits(s@.subrange(i as int, j as int)),
            acc == dec_val(s@.subrange(i as int, j as int)),
            0 <= acc <= 2147483648,
        decreases n - j,
    {
        let c = s.get_char(j);
        let cu = c as u32;
        if cu < 48 || cu > 57 {
            assert(!is_digit(body[j - i]));
            assert(!all_digits(body));
            return None;
        }
        let d: i64 = (cu - 48) as i64;
        let ghost pre = s@.subrange(i as int, j as int);
        let ghost cur = s@.subrange(i as int, j as int + 1);
        assert(cur.drop_last() =~= pre);
        assert(cur.last() == s@[j as int]);
        acc = acc * 10 + d;
        assert(acc == dec_val(cur));
        j = j + 1;
        if acc > 2147483648 {
            proof {
                assert(cur =~= body.subrange(0, j as int - i));
                if all_digits(body) {
                    lemma_dec_val_prefix(body, j as int - i);
                    assert(dec_val(body) >= acc > 2147483648);
                }
            }
            return None;
        }
    }
    assert(s@.subrange(i as int, j as int) =~= body);
    assert(all_digits(body) && acc == dec_val(body) && body.len() > 0);
    if neg {
        assert(s@[0] == '-');
        let v: i64 = -acc;
        assert(parse_i32_spec(s@) == Some(-dec_val(body)));
        Some(v as i32)
    } else {
        if acc > 2147483647 {
            assert(parse_i32_spec(s@) is None);
            None
        } else {
            assert(parse_i32_spec(s@) == Some(dec_val(body)));
            Some(acc as i32)
        }
    }
}

/// An ASCII whitespace character; trimming and splitting treat exactly
/// these as blanks.
pub open spec fn is_space_char(c: char) -> bool {
    c == ' ' || c == '\t' || c == '\n' || c == '\r' || c == '\u{b}' || c == '\u{c}'
}

/// The sequence with its leading whitespace removed.
pub open spec fn trim_start_spec(s: Seq<char>) -> Seq<char>
    decreases s.len(),
{
    if s.len() > 0 && is_space_char(s[0]) {
        trim_start_spec(s.drop_first())
    } else {
        s
    }
}

/// The sequence with its trailing whitespace removed.
pub open spec fn trim_end_spec(s: Seq<char>) -> Seq<char>
    decreases s.len(),
{
    if s.len() > 0 && is_space_char(s.last()) {
        trim_end_spec(s.drop_last())
    } else {
        s
    }
}

/// The sequence with whitespace removed from both ends.
pub open spec fn trim_spec(s: Seq<char>) -> Seq<char> {
    trim_end_spec(trim_start_spec(s))
}

proof fn lemma_trim_start_at(s: Seq<char>, k: int)
    requires
        0 <= k <= s.len(),
        forall|i: int| 0 <= i < k ==> is_space_char(#[trigger] s[i]),
        k == s.len() || !is_space_char(s[k]),
    ensures
        trim_start_spec(s) == s.subrange(k, s.len() as int),
    decreases k,
{
    if k == 0 {
        assert(s.subrange(0, s.len() as int) =~= s);
    } else {
        let d = s.drop_first();
        assert(forall|i: int| 0 <= i < k - 1 ==> is_space_char(#[trigger] d[i]));
        lemma_trim_start_at(d, k - 1);
        assert(d.subrange(k - 1, d.len() as int) =~= s.subrange(k, s.len() as int));
    }
}

proof fn lemma_trim_end_at(s: Seq<char>, k: int)
    requires
        0 <= k <= s.len(),
        forall|i: int| k <= i < s.len() ==> is_space_char(#[trigger] s[i]),
        k == 0 || !is_space_char(s[k - 1]),
    ensures
        trim_end_spec(s) == s.subrange(0, k),
    decreases s.len(),
{
    if k == s.len() {
        assert(s.subrange(0, k) =~= s);
    } else {
        let d = s.drop_last();
        lemma_trim_end_at(d, k);
        assert(d.subrange(0, k) =~= s.subrange(0, k));
    }
}

fn is_space(c: char) -> (r: bool)
    ensures
        r == is_space_char(c),
{
    c == ' ' || c == '\t' || c == '\n' || c == '\r' || c == '\u{b}' || c == '\u{c}'
}

/// Removes whitespace from both ends, as `str::trim` does for ASCII input.
pub fn trim(s: &str) -> (r: &str)
    ensures
        r@ == trim_spec(s@),
{
    let n = s.unicode_len();
    let mut a: usize = 0;
    while a < n && is_space(s.get_char(a))
        invariant
            0 <= a <= n,
            n == s@.len(),
            forall|i: int| 0 <= i < a ==> is_space_char(#[trigger] s@[i]),
        decreases n - a,
    {
        a = a + 1;
    }
    proof {
        lemma_trim_start_at(s@, a as int);
    }
    if a == n {
        let r = s.substring_char(n, n);
        proof {
            assert(trim_start_spec(s@) =~= Seq::<char>::empty());
        }
        return r;
    }
    let mut b: usize = n;
    while b > a && is_space(s.get_char(b - 1))
        invariant
            a <= b <= n,
            n == s@.len(),
            forall|i: int| b <= i < n ==> is_space_char(#[trigger] s@[i]),
        decreases b,
    {
        b = b - 1;
    }
    let r = s.substring_char(a, b);
    proof {
        let t = s@.subrange(a as int, n as int);
        assert(forall|i: int| b - a <= i < t.len() ==> is_space_char(#[trigger] t[i]));
        if b > a {
            assert(!is_space_char(t[b - a - 1]));
        } else {
            assert(!is_space_char(s@[a as int]));
            assert(!is_space_char(t[b - a]));
            assert(b - a == 0 && t.len() > 0 && is_space_char(t[0]) == false);
        }
        lemma_trim_end_at(t, b - a);
        assert(t.subrange(0, b - a) =~= s@.subrange(a as int, b as int));
    }
    r
}

/// How a sequence splits at every occurrence of a separator character:
/// the pieces between separators, empty pieces kept.
pub open spec fn split_char_spec(s: Seq<char>, sep: char) -> Seq<Seq<char>>
    decreases s.len(),
{
    if s.len() == 0 {
        seq![Seq::<char>::empty()]
    } else {
        let rest = split_char_spec(s.drop_last(), sep);
        if s.last() == sep {
            rest.push(Seq::<char>::empty())
        } else {
            rest.update(rest.len() - 1, rest.last().push(s.last()))
        }
    }
}

pub proof fn lemma_split_char_nonempty(s: Seq<char>, sep: char)
    ensures
        split_char_spec(s, sep).len() >= 1,
    decreases s.len(),
{
    if s.len() > 0 {
        lemma_split_char_nonempty(s.drop_last(), sep);
    }
}

/// Splits at every occurrence of `sep`, as `str::split` does.
pub fn split_on_char<'a>(s: &'a str, sep: char) -> (parts: Vec<&'a str>)
    ensures
        parts@.map_values(|p: &str| p@) == split_char_spec(s@, sep),
{
    let n = s.unicode_len();
    let mut parts: Vec<&str> = Vec::new();
    let mut start: usize = 0;
    let mut j: usize = 0;
    proof {
        assert(parts@.map_values(|p: &str| p@) =~= Seq::<Seq<char>>::empty());
        assert(s@.subrange(0, 0) =~= Seq::<char>::empty());
    }
    while j < n
        invariant
            start <= j <= n,
            n == s@.len(),
            parts@.map_values(|p: &str| p@).push(s@.subrange(start as int, j as int))
                =~= split_char_spec(s@.subrange(0, j as int), sep),
        decreases n - j,
    {
        let c = s.get_char(j);
        proof {
            let pre = s@.subrange(0, j as int);
            let cur = s@.subrange(0, j as int + 1);
            assert(cur.drop_last() =~= pre);
            assert(cur.last() == s@[j as int]);
            lemma_split_char_nonempty(pre, sep);
        }
        if c == sep {
            let piece = s.substring_char(start, j);
            parts.push(piece);
            start = j + 1;
            proof {
                assert(parts@.map_values(|p: &str| p@)
                    =~= parts@.subrange(0, parts@.len() - 1).map_values(|p: &str| p@).push(piece@));
                assert(parts@.subrange(0, parts@.len() - 1) =~= parts@.drop_last());
            }
        }
        j = j + 1;
        proof {
            assert(s@.subrange(start as int, j as int)
                =~= if c == sep { Seq::<char>::empty() } else {
                    s@.subrange(start as int, j as int - 1).push(s@[j as int - 1])
                });
        }
    }
    let piece = s.substring_char(start, n);
    parts.push(piece);
    proof {
        assert(s@.subrange(0, n as int) =~= s@);
        assert(parts@.drop_last().map_values(|p: &str| p@).push(piece@)
            =~= parts@.map_values(|p: &str| p@));
        assert(parts@.drop_last() =~= parts@.subrange(0, parts@.len() - 1));
    }
    parts
}

/// Unicode lowercasing of a character sequence: a function of the
/// characters alone, left unspecified beyond that.
pub uninterp spec fn lower_of(s: Seq<char>) -> Seq<char>;

/// Relies on str::to_lowercase: the result depends on the characters alone.
#[verifier::external_body]
pub(crate) fn lowercase(s: &str) -> (r: String)
    ensures
        r@ == lower_of(s@),
{
    s.to_lowercase()
}

/// Compares two string slices character by character.
pub fn str_eq(a: &str, b: &str) -> (r: bool)
    ensures
        r == (a@ == b@),
{
    let al = a.unicode_len();
    let bl = b.unicode_len();
    if al != bl {
        return false;
    }
    let mut i: usize = 0;
    while i < al
        invariant
            0 <= i <= al,
            al == a@.len(),
            al == b@.len(),
            forall|k: int| 0 <= k < i ==> a@[k] == b@[k],
        decreases al - i,
    {
        if a.get_char(i) != b.get_char(i) {
            return false;
        }
        i = i + 1;
    }
    proof {
        assert(a@ =~= b@);
    }
    true
}

/// `needle` occurs somewhere in `hay` as a contiguous run.
pub open spec fn contains_seq(hay: Seq<char>, needle: Seq<char>) -> bool {
    exists|i: int|
        0 <= i && i + needle.len() <= hay.len() && #[trigger] hay.subrange(i, i + needle.len())
            == needle
}

/// Substring search, as `str::contains` decides it.
pub fn contains_sub(hay: &str, needle: &str) -> (r: bool)
    ensures
        r == contains_seq(hay@, needle@),
{
    let hl = hay.unicode_len();
    let nl = needle.unicode_len();
    if nl > hl {
        return false;
    }
    let mut i: usize = 0;
    while i <= hl - nl
        invariant
            0 <= i,
            i <= hl - nl + 1,
            nl <= hl,
            hl == hay@.len(),
            nl == needle@.len(),
            forall|k: int|
                0 <= k < i ==> #[trigger] hay@.subrange(k, k + needle@.len()) != needle@,
        decreases hl - i,
    {
        let mut m: usize = 0;
        let mut ok = true;
        while m < nl && ok
            invariant
                0 <= m <= nl,
                i + nl <= hl,
                hl == hay@.len(),
                nl == needle@.len(),
                ok ==> forall|t: int| 0 <= t < m ==> hay@[i + t] == needle@[t],
                !ok ==> exists|t: int| 0 <= t < nl && hay@[i + t] != needle@[t],
            decreases (if ok { 1int } else { 0int }) + nl - m,
        {
            if hay.get_char(i + m) != needle.get_char(m) {
                ok = false;
            } else {
                m = m + 1;
            }
        }
        if ok {
            proof {
                assert(hay@.subrange(i as int, i as int + needle@.len()) =~= needle@);
            }
            return true;
        }
        proof {
            let t = choose|t: int| 0 <= t < nl && hay@[i + t] != needle@[t];
            assert(hay@.subrange(i as int, i as int + needle@.len())[t] == hay@[i + t]);
        }
        i = i + 1;
    }
    false
}

/// Every character is whitespace (an empty sequence counts as blank).
pub open spec fn is_blank_seq(s: Seq<char>) -> bool {
    forall|i: int| 0 <= i < s.len() ==> is_space_char(#[trigger] s[i])
}

/// Whether the string is empty or holds only whitespace.
pub fn is_blank(s: &str) -> (r: bool)
    ensures
        r == is_blank_seq(s@),
{
    let n = s.unicode_len();
    let mut i: usize = 0;
    while i < n
        invariant
            0 <= i <= n,
            n == s@.len(),
            forall|k: int| 0 <= k < i ==> is_space_char(#[trigger] s@[k]),
        decreases n - i,
    {
        if !is_space(s.get_char(i)) {
            return false;
        }
        i = i + 1;
    }
    true
}

/// The whitespace separated tokens of a sequence, consumed from the
/// front with `cur` the token gathered so far.
pub open spec fn ws_tokens_rec(s: Seq<char>, cur: Seq<char>) -> Seq<Seq<char>>
    decreases s.len(),
{
    if s.len() == 0 {
        if cur.len() > 0 {
            seq![cur]
        } else {
            Seq::<Seq<char>>::empty()
        }
    } else if is_space_char(s[0]) {
        if cur.len() > 0 {
            seq![cur] + ws_tokens_rec(s.drop_first(), Seq::<char>::empty())
        } else {
            ws_tokens_rec(s.drop_first(), Seq::<char>::empty())
        }
    } else {
        ws_tokens_rec(s.drop_first(), cur.push(s[0]))
    }
}

/// The maximal whitespace free runs of a sequence, in order.
pub open spec fn split_ws_spec(s: Seq<char>) -> Seq<Seq<char>> {
    ws_tokens_rec(s, Seq::<char>::empty())
}

/// Splits into whitespace separated tokens, as `str::split_whitespace`
/// does for ASCII whitespace.
pub fn split_whitespace_owned(s: &str) -> (parts: Vec<String>)
    ensures
        parts@.map_values(|p: String| p@) == split_ws_spec(s@),
{
    let n = s.unicode_len();
    let mut parts: Vec<String> = Vec::new();
    let mut start: usize = 0;
    let mut j: usize = 0;
    proof {
        assert(parts@.map_values(|p: String| p@) =~= Seq::<Seq<char>>::empty());
        assert(s@.subrange(0, n as int) =~= s@);
        assert(s@.subrange(0, 0) =~= Seq::<char>::empty());
        assert(Seq::<Seq<char>>::empty() + split_ws_spec(s@) =~= split_ws_spec(s@));
    }
    while j < n
        invariant
            start <= j <= n,
            n == s@.len(),
            parts@.map_values(|p: String| p@)
                + ws_tokens_rec(s@.subrange(j as int, n as int), s@.subrange(start as int, j as int))
                =~= split_ws_spec(s@),
        decreases n - j,
    {
        let c = s.get_char(j);
        proof {
            let rest = s@.subrange(j as int, n as int);
            assert(rest[0] == s@[j as int]);
            assert(rest.drop_first() =~= s@.subrange(j as int + 1, n as int));
        }
        if is_space(c) {
            if j > start {
                let piece = s.substring_char(start, j);
                let owned = piece.to_owned();
                parts.push(owned);
                proof {
                    assert(parts@.drop_last().map_values(|p: String| p@).push(owned@)
                        =~= parts@.map_values(|p: String| p@));
                    assert(parts@.drop_last() =~= parts@.subrange(0, parts@.len() - 1));
                    assert(seq![s@.subrange(start as int, j as int)]
                        + ws_tokens_rec(s@.subrange(j as int + 1, n as int), Seq::<char>::empty())
                        =~= ws_tokens_rec(s@.subrange(j as int, n as int),
                            s@.subrange(start as int, j as int)));
                }
            }
            start = j + 1;
        } else {
            proof {
                assert(s@.subrange(start as int, j as int).push(s@[j as int])
                    =~= s@.subrange(start as int, j as int + 1));
            }
        }
        j = j + 1;
        proof {
            if start == j {
                assert(s@.subrange(start as int, j as int) =~= Seq::<char>::empty());
            }
        }
    }
    if j > start {
        let piece = s.substring_char(start, n);
        let owned = piece.to_owned();
        parts.push(owned);
        proof {
            assert(parts@.drop_last().map_values(|p: String| p@).push(owned@)
                =~= parts@.map_values(|p: String| p@));
            assert(parts@.drop_last() =~= parts@.subrange(0, parts@.len() - 1));
            assert(s@.subrange(n as int, n as int) =~= Seq::<char>::empty());
        }
    } else {
        proof {
            assert(s@.subrange(n as int, n as int) =~= Seq::<char>::empty());
            assert(s@.subrange(start as int, j as int) =~= Seq::<char>::empty());
        }
    }
    parts
}

} // verus!

