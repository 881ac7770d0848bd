//! The season resolver: finds season-indicator tokens in the season region
//! (Latin ordinal or `Season N` or `SN` forms, and CJK counted forms) and
//! converts the first one into a season number; later indicators are
//! ignored, and 1 stands in when there is no indicator or the first one
//! carries no number.
use vstd::prelude::*;

use crate::chars::digit_val;
use crate::chars::ex_is_digit;
use crate::chars::is_digit;
use crate::segment::at_is;
use crate::segment::CJK_ORD;
use crate::segment::drun;
use crate::segment::ex_at_is;
use crate::segment::ex_drun_end;
use crate::segment::lemma_drun;
use crate::textops::digits_val;
use crate::textops::lemma_digits_val_nonneg;
use crate::textops::parse_u32;
use crate::textops::subrange_chars;

verus! {

/// The season suffix "quarter" (U+5B63).
pub const CJK_JI: char = '\u{5B63}';
/// The season suffix "period" (U+671F).
pub const CJK_QI: char = '\u{671F}';

/// A season suffix character stands at position `i`.
pub open spec fn season_suffix_at(s: Seq<char>, i: int) -> bool {
    0 <= i < s.len() && (s[i] == CJK_JI || s[i] == CJK_QI)
}

fn ex_season_suffix_at(s: &Vec<char>, i: usize) -> (r: bool)
    ensures
        r == season_suffix_at(s@, i as int),
{
    i < s.len() && (s[i] == CJK_JI || s[i] == CJK_QI)
}

/// A Latin ordinal suffix (`st`, `nd`, `rd`, `th`) stands at position `i`.
pub open spec fn ordinal_at(s: Seq<char>, i: int) -> bool {
    (at_is(s, i, 's') && at_is(s, i + 1, 't')) || (at_is(s, i, 'n') && at_is(s, i + 1, 'd')) || (
    at_is(s, i, 'r') && at_is(s, i + 1, 'd')) || (at_is(s, i, 't') && at_is(s, i + 1, 'h'))
}

fn ex_ordinal_at(s: &Vec<char>, i: usize) -> (r: bool)
    ensures
        r == ordinal_at(s@, i as int),
{
    let n = s.len();
    (ex_at_is(s, i, 's') && ex_at_is(s, i + 1, 't')) || (ex_at_is(s, i, 'n') && ex_at_is(
        s,
        i + 1,
        'd',
    )) || (ex_at_is(s, i, 'r') && ex_at_is(s, i + 1, 'd')) || (ex_at_is(s, i, 't') && ex_at_is(
        s,
        i + 1,
        'h',
    ))
}

/// The literal `Season` stands at position `i`.
pub open spec fn season_word_at(s: Seq<char>, i: int) -> bool {
    at_is(s, i, 'S') && at_is(s, i + 1, 'e') && at_is(s, i + 2, 'a') && at_is(s, i + 3, 's')
        && at_is(s, i + 4, 'o') && at_is(s, i + 5, 'n')
}

fn ex_season_word_at(s: &Vec<char>, i: usize) -> (r: bool)
    ensures
        r == season_word_at(s@, i as int),
{
    let n = s.len();
    ex_at_is(s, i, 'S') && ex_at_is(s, i + 1, 'e') && ex_at_is(s, i + 2, 'a') && ex_at_is(
        s,
        i + 3,
        's',
    ) && ex_at_is(s, i + 4, 'o') && ex_at_is(s, i + 5, 'n')
}

/// A season-indicator match at position `i`: one to two digits with an
/// ordinal suffix and the word `Season`; the word `Season` and one to two
/// digits; `S` and one to two digits; the CJK ordinal prefix, one character
/// and a season suffix; or a digit and a season suffix. The result is the
/// match's end position. The one-character wildcard after the ordinal
/// prefix accepts any character, a line break included.
pub open spec fn season_match_at(s: Seq<char>, i: int) -> Option<int> {
    let r = drun(s, i);
    let r2 = drun(s, i + 7);
    let r3 = drun(s, i + 1);
    if 1 <= r <= 2 && ordinal_at(s, i + r) && at_is(s, i + r + 2, ' ') && season_word_at(
        s,
        i + r + 3,
    ) {
        Some(i + r + 9)
    } else if season_word_at(s, i) && at_is(s, i + 6, ' ') && r2 >= 1 {
        if r2 >= 2 {
            Some(i + 9)
        } else {
            Some(i + 8)
        }
    } else if at_is(s, i, 'S') && r3 >= 1 {
        if r3 >= 2 {
            Some(i + 3)
        } else {
            Some(i + 2)
        }
    } else if at_is(s, i, CJK_ORD) && 0 <= i + 2 < s.len() && season_suffix_at(s, i + 2) {
        Some(i + 3)
    } else if dig_at_local(s, i) && season_suffix_at(s, i + 1) {
        Some(i + 2)
    } else {
        None
    }
}

/// A decimal digit stands at position `i`.
pub open spec fn dig_at_local(s: Seq<char>, i: int) -> bool {
    0 <= i < s.len() && is_digit(s[i])
}

pub fn ex_season_match_at(s: &Vec<char>, i: usize) -> (r: Option<usize>)
    requires
        i < s@.len(),
    ensures
        match r {
            Some(e) => season_match_at(s@, i as int) == Some(e as int) && i < e <= s@.len(),
            None => season_match_at(s@, i as int) is None,
        },
{
    let n = s.len();
    let e0 = ex_drun_end(s, i);
    let r = e0 - i;
    if 1 <= r && r <= 2 && ex_ordinal_at(s, e0) && ex_at_is(s, e0 + 2, ' ') && ex_season_word_at(
        s,
        e0 + 3,
    ) {
        return Some(e0 + 9);
    }
    if ex_season_word_at(s, i) && ex_at_is(s, i + 6, ' ') {
        let e2 = ex_drun_end(s, i + 7);
        let r2 = e2 - (i + 7);
        if r2 >= 2 {
            return Some(i + 9);
        }
        if r2 == 1 {
            return Some(i + 8);
        }
        return None;
    }
    if ex_at_is(s, i, 'S') {
        let e3 = ex_drun_end(s, i + 1);
        let r3 = e3 - (i + 1);
        if r3 >= 2 {
            return Some(i + 3);
        }
        if r3 == 1 {
            return Some(i + 2);
        }
        return None;
    }
    if ex_at_is(s, i, CJK_ORD) && n - i > 2 && ex_season_suffix_at(s, i + 2) {
        return Some(i + 3);
    }
    if ex_dig_at_local(s, i) && ex_season_suffix_at(s, i + 1) {
        return Some(i + 2);
    }
    None
}

fn ex_dig_at_local(s: &Vec<char>, i: usize) -> (r: bool)
    ensures
        r == dig_at_local(s@, i as int),
{
    i < s.len() && ex_is_digit(s[i])
}

/// All non-overlapping season-indicator matches from `i` on, leftmost
/// first, as (start, end) spans.
pub open spec fn season_matches(s: Seq<char>, i: int) -> Seq<(int, int)>
    decreases s.len() - i,
    when 0 <= i
    via season_matches_dec
{
    if i >= s.len() {
        Seq::empty()
    } else {
        match season_match_at(s, i) {
            Some(e) => seq![(i, e)] + season_matches(s, e),
            None => season_matches(s, i + 1),
        }
    }
}

/// Every season-indicator match ends after its start and within the text.
pub proof fn lemma_season_match_bounds(s: Seq<char>, i: int)
    requires
        0 <= i,
    ensures
        season_match_at(s, i) is Some ==> i < season_match_at(s, i).unwrap() <= s.len(),
{
    if 0 <= i <= s.len() {
        lemma_drun(s, i);
        let r = drun(s, i);
    }
    if 0 <= i + 7 <= s.len() {
        lemma_drun(s, i + 7);
    }
    if 0 <= i + 1 <= s.len() {
        lemma_drun(s, i + 1);
    }
    if season_match_at(s, i) is Some {
        let r = drun(s, i);
        if 1 <= r <= 2 && ordinal_at(s, i + r) && at_is(s, i + r + 2, ' ') && season_word_at(
            s,
            i + r + 3,
        ) {
            assert(at_is(s, i + r + 8, 'n'));
        } else if season_word_at(s, i) && at_is(s, i + 6, ' ') && drun(s, i + 7) >= 1 {
            if drun(s, i + 7) >= 2 {
                assert(is_digit(s[i + 8]));
                assert(i + 8 < s.len());
            } else {
                assert(is_digit(s[i + 7]));
            }
        } else if at_is(s, i, 'S') && drun(s, i + 1) >= 1 {
            if drun(s, i + 1) >= 2 {
                assert(is_digit(s[i + 2]));
            } else {
                assert(is_digit(s[i + 1]));
            }
        }
    }
}

#[via_fn]
proof fn season_matches_dec(s: Seq<char>, i: int) {
    if 0 <= i < s.len() {
        lemma_season_match_bounds(s, i);
    }
}

/// The value of at most two decimal digits is at most 99.
proof fn lemma_digits_val_small(d: Seq<char>)
    requires
        forall|j: int| 0 <= j < d.len() ==> is_digit(d[j]),
        d.len() <= 2,
    ensures
        0 <= digits_val(d) <= 99,
{
    if d.len() == 2 {
        let first = d.drop_last();
        assert(digits_val(d) == digits_val(first) * 10 + digit_val(d.last()));
        assert(first.drop_last().len() == 0);
        assert(digits_val(first.drop_last()) == 0);
        assert(digits_val(first) == digit_val(first.last()));
        assert(is_digit(first.last()));
        assert(is_digit(d.last()));
    } else if d.len() == 1 {
        assert(d.drop_last().len() == 0);
        assert(digits_val(d.drop_last()) == 0);
        assert(digits_val(d) == digit_val(d.last()));
        assert(is_digit(d.last()));
    }
}

/// The digit run at `i` is exactly the run shown by its bounds.
proof fn lemma_drun_exact(t: Seq<char>, i: int, r: int)
    requires
        0 <= i,
        0 <= r,
        i + r <= t.len(),
        forall|j: int| i <= j < i + r ==> is_digit(t[j]),
        i + r < t.len() ==> !is_digit(t[i + r]),
    ensures
        drun(t, i) == r,
{
    lemma_drun(t, i);
    let w = drun(t, i);
    if w < r {
        assert(!is_digit(t[i + w]));
        assert(is_digit(t[i + w]));
    }
    if w > r {
        assert(is_digit(t[i + r]));
    }
}

/// A season-indicator token never reads as more than two digits: the value
/// of its first digit run, when it has one, is between 0 and 99.
proof fn lemma_season_token_bounds(s: Seq<char>, a: int)
    requires
        0 <= a,
        season_match_at(s, a) is Some,
    ensures
        ({
            let t = s.subrange(a, season_match_at(s, a).unwrap());
            match first_digit_run_val(t) {
                Some(v) => 0 <= v <= 99,
                None => true,
            }
        }),
{
    let b = season_match_at(s, a).unwrap();
    lemma_season_match_bounds(s, a);
    let t = s.subrange(a, b);
    let r = drun(s, a);
    let r2 = drun(s, a + 7);
    let r3 = drun(s, a + 1);
    if 0 <= a <= s.len() {
        lemma_drun(s, a);
    }
    if 0 <= a + 7 <= s.len() {
        lemma_drun(s, a + 7);
    }
    if 0 <= a + 1 <= s.len() {
        lemma_drun(s, a + 1);
    }
    if 1 <= r <= 2 && ordinal_at(s, a + r) && at_is(s, a + r + 2, ' ') && season_word_at(
        s,
        a + r + 3,
    ) {
        // digits, ordinal suffix, space, the word Season
        assert(is_digit(t[0]));
        assert(first_digit_idx(t, 0) == Some(0int));
        assert(!is_digit(s[a + r]));
        lemma_drun_exact(t, 0, r);
        lemma_digits_val_small(t.subrange(0, r));
    } else if season_word_at(s, a) && at_is(s, a + 6, ' ') && r2 >= 1 {
        // the word Season, a space, one or two digits
        let k: int = if r2 >= 2 {
            2
        } else {
            1
        };
        assert(t.len() == 7 + k);
        assert(!is_digit(t[0]));
        assert(!is_digit(t[1]));
        assert(!is_digit(t[2]));
        assert(!is_digit(t[3]));
        assert(!is_digit(t[4]));
        assert(!is_digit(t[5]));
        assert(!is_digit(t[6]));
        assert(is_digit(t[7]));
        assert(first_digit_idx(t, 0) == first_digit_idx(t, 1));
        assert(first_digit_idx(t, 1) == first_digit_idx(t, 2));
        assert(first_digit_idx(t, 2) == first_digit_idx(t, 3));
        assert(first_digit_idx(t, 3) == first_digit_idx(t, 4));
        assert(first_digit_idx(t, 4) == first_digit_idx(t, 5));
        assert(first_digit_idx(t, 5) == first_digit_idx(t, 6));
        assert(first_digit_idx(t, 6) == first_digit_idx(t, 7));
        assert(first_digit_idx(t, 0) == Some(7int));
        lemma_drun_exact(t, 7, k);
        lemma_digits_val_small(t.subrange(7, 7 + k));
    } else if at_is(s, a, 'S') && r3 >= 1 {
        // the letter S, one or two digits
        let k: int = if r3 >= 2 {
            2
        } else {
            1
        };
        assert(t.len() == 1 + k);
        assert(!is_digit(t[0]));
        assert(is_digit(t[1]));
        assert(first_digit_idx(t, 0) == first_digit_idx(t, 1));
        assert(first_digit_idx(t, 0) == Some(1int));
        lemma_drun_exact(t, 1, k);
        lemma_digits_val_small(t.subrange(1, 1 + k));
    } else if at_is(s, a, CJK_ORD) && 0 <= a + 2 < s.len() && season_suffix_at(s, a + 2) {
        // the ordinal prefix, one character, a season suffix
        assert(t.len() == 3);
        assert(!is_digit(t[0]));
        assert(!is_digit(t[2]));
        if is_digit(t[1]) {
            assert(first_digit_idx(t, 0) == first_digit_idx(t, 1));
            assert(first_digit_idx(t, 0) == Some(1int));
            lemma_drun_exact(t, 1, 1);
            lemma_digits_val_small(t.subrange(1, 2));
        } else {
            assert(first_digit_idx(t, 0) == first_digit_idx(t, 1));
            assert(first_digit_idx(t, 1) == first_digit_idx(t, 2));
            assert(first_digit_idx(t, 2) == first_digit_idx(t, 3));
            assert(first_digit_idx(t, 0) is None);
        }
    } else {
        // one digit, a season suffix
        assert(t.len() == 2);
        assert(is_digit(t[0]));
        assert(!is_digit(t[1]));
        assert(first_digit_idx(t, 0) == Some(0int));
        lemma_drun_exact(t, 0, 1);
        lemma_digits_val_small(t.subrange(0, 1));
    }
}

/// Every span in the match list is a season-indicator match.
proof fn lemma_matches_are_matches(s: Seq<char>, i: int)
    requires
        0 <= i,
    ensures
        forall|k: int|
            0 <= k < season_matches(s, i).len() ==> {
                let (a, b) = #[trigger] season_matches(s, i)[k];
                0 <= a && season_match_at(s, a) == Some(b)
            },
    decreases s.len() - i,
{
    if i < s.len() {
        match season_match_at(s, i) {
            Some(e) => {
                lemma_season_match_bounds(s, i);
                lemma_matches_are_matches(s, e);
            },
            None => {
                lemma_matches_are_matches(s, i + 1);
            },
        }
    }
}

/// The resolved season over well-formed spans lies between 0 and 99.
proof fn lemma_resolve_bounds(s: Seq<char>, ms: Seq<(int, int)>)
    requires
        forall|j: int|
            0 <= j < ms.len() ==> {
                let (a, b) = #[trigger] ms[j];
                0 <= a && season_match_at(s, a) == Some(b)
            },
    ensures
        0 <= resolve_season(s, ms) <= 99,
{
    if ms.len() > 0 {
        let (a, b) = ms[0];
        let t = s.subrange(a, b);
        lemma_season_token_bounds(s, a);
        match first_digit_run_val(t) {
            Some(v) => {},
            None => {
                match first_cn_numeral(t, 0) {
                    Some(c) => {
                        lemma_first_cn_numeral(t, 0);
                    },
                    None => {},
                }
            },
        }
    }
}

/// The resolved season of any region lies between 0 and 99.
pub proof fn lemma_season_bounds(region: Seq<char>)
    ensures
        0 <= spec_season_of(region) <= 99,
{
    lemma_matches_are_matches(region, 0);
    lemma_resolve_bounds(region, season_matches(region, 0));
}

/// The spans of an executable match list, as mathematical integers.
pub open spec fn spans_view(v: Seq<(usize, usize)>) -> Seq<(int, int)> {
    Seq::new(v.len(), |k: int| (v[k].0 as int, v[k].1 as int))
}

pub fn ex_season_matches(s: &Vec<char>) -> (r: Vec<(usize, usize)>)
    ensures
        spans_view(r@) == season_matches(s@, 0),
        forall|k: int| 0 <= k < r@.len() ==> (#[trigger] r@[k]).0 < r@[k].1 <= s@.len(),
{
    let n = s.len();
    let mut out: Vec<(usize, usize)> = Vec::new();
    let mut i: usize = 0;
    while i < n
        invariant
            i <= n == s@.len(),
            season_matches(s@, 0) == spans_view(out@) + season_matches(s@, i as int),
            forall|k: int| 0 <= k < out@.len() ==> (#[trigger] out@[k]).0 < out@[k].1 <= s@.len(),
        decreases n - i,
    {
        if let Some(e) = ex_season_match_at(s, i) {
            let ghost pre = spans_view(out@);
            out.push((i, e));
            proof {
                assert(spans_view(out@) =~= pre.push((i as int, e as int)));
                assert(season_matches(s@, i as int) == seq![(i as int, e as int)]
                    + season_matches(s@, e as int));
                assert(spans_view(out@) + season_matches(s@, e as int) =~= season_matches(s@, 0));
            }
            i = e;
        } else {
            i = i + 1;
        }
    }
    proof {
        assert(season_matches(s@, n as int) =~= Seq::<(int, int)>::empty());
        assert(spans_view(out@) =~= season_matches(s@, 0));
    }
    out
}

/// The value a single CJK numeral character stands for.
pub open spec fn cn_digit_of(c: char) -> Option<int> {
    if c == '\u{4E00}' {
        Some(1)
    } else if c == '\u{4E8C}' {
        Some(2)
    } else if c == '\u{4E09}' {
        Some(3)
    } else if c == '\u{56DB}' {
        Some(4)
    } else if c == '\u{4E94}' {
        Some(5)
    } else if c == '\u{516D}' {
        Some(6)
    } else if c == '\u{4E03}' {
        Some(7)
    } else if c == '\u{516B}' {
        Some(8)
    } else if c == '\u{4E5D}' {
        Some(9)
    } else if c == '\u{5341}' {
        Some(10)
    } else {
        None
    }
}

/// Maps a CJK numeral character (one through ten) to its value.
pub fn cn_to_digit(c: char) -> (r: Option<u32>)
    ensures
        match r {
            Some(v) => cn_digit_of(c) == Some(v as int),
            None => cn_digit_of(c) is None,
        },
{
    if c == '\u{4E00}' {
        Some(1)
    } else if c == '\u{4E8C}' {
        Some(2)
    } else if c == '\u{4E09}' {
        Some(3)
    } else if c == '\u{56DB}' {
        Some(4)
    } else if c == '\u{4E94}' {
        Some(5)
    } else if c == '\u{516D}' {
        Some(6)
    } else if c == '\u{4E03}' {
        Some(7)
    } else if c == '\u{516B}' {
        Some(8)
    } else if c == '\u{4E5D}' {
        Some(9)
    } else if c == '\u{5341}' {
        Some(10)
    } else {
        None
    }
}

/// The first decimal digit position in `t` from `i` on.
pub open spec fn first_digit_idx(t: Seq<char>, i: int) -> Option<int>
    decreases t.len() - i,
    when 0 <= i
{
    if i >= t.len() {
        None
    } else if is_digit(t[i]) {
        Some(i)
    } else {
        first_digit_idx(t, i + 1)
    }
}

/// A found first digit position is in bounds and holds a digit.
pub proof fn lemma_first_digit_idx(t: Seq<char>, i: int)
    requires
        0 <= i,
    ensures
        first_digit_idx(t, i) matches Some(d) ==> i <= d < t.len() && is_digit(t[d]),
    decreases t.len() - i,
{
    if i < t.len() && !is_digit(t[i]) {
        lemma_first_digit_idx(t, i + 1);
    }
}

/// The value of the first run of decimal digits in `t`, if any.
pub open spec fn first_digit_run_val(t: Seq<char>) -> Option<int> {
    match first_digit_idx(t, 0) {
        Some(d) => Some(digits_val(t.subrange(d, d + drun(t, d)))),
        None => None,
    }
}

/// The first CJK numeral character in `t`, if any, from `i` on.
pub open spec fn first_cn_numeral(t: Seq<char>, i: int) -> Option<char>
    decreases t.len() - i,
    when 0 <= i
{
    if i >= t.len() {
        None
    } else if cn_digit_of(t[i]) is Some {
        Some(t[i])
    } else {
        first_cn_numeral(t, i + 1)
    }
}

/// A found first CJK numeral is one of the ten numeral characters.
proof fn lemma_first_cn_numeral(t: Seq<char>, i: int)
    requires
        0 <= i,
    ensures
        first_cn_numeral(t, i) is Some ==> cn_digit_of(first_cn_numeral(t, i).unwrap()) is Some,
    decreases t.len() - i,
{
    if i < t.len() && !(cn_digit_of(t[i]) is Some) {
        lemma_first_cn_numeral(t, i + 1);
    }
}

/// The season read from the matched indicator spans: only the first span
/// is honored — the value of its first digit run, else the value of its
/// first CJK numeral, else 1; and 1 when there is no span at all. Later
/// indicators in the same region are ignored by design.
pub open spec fn resolve_season(s: Seq<char>, ms: Seq<(int, int)>) -> int {
    if ms.len() == 0 {
        1
    } else {
        let t = s.subrange(ms[0].0, ms[0].1);
        match first_digit_run_val(t) {
            Some(v) => v,
            None => match first_cn_numeral(t, 0) {
                Some(c) => cn_digit_of(c).unwrap(),
                None => 1,
            },
        }
    }
}

/// The season number of a season-region text.
pub open spec fn spec_season_of(region: Seq<char>) -> int {
    resolve_season(region, season_matches(region, 0))
}

/// The first digit position in `t`, executable.
pub fn ex_first_digit_idx(t: &Vec<char>) -> (r: Option<usize>)
    ensures
        match r {
            Some(d) => first_digit_idx(t@, 0) == Some(d as int) && d < t@.len(),
            None => first_digit_idx(t@, 0) is None,
        },
{
    let n = t.len();
    let mut i: usize = 0;
    while i < n
        invariant
            i <= n == t@.len(),
            first_digit_idx(t@, 0) == first_digit_idx(t@, i as int),
        decreases n - i,
    {
        if ex_is_digit(t[i]) {
            return Some(i);
        }
        i = i + 1;
    }
    None
}

fn ex_first_cn_numeral(t: &Vec<char>) -> (r: Option<char>)
    ensures
        match r {
            Some(c) => first_cn_numeral(t@, 0) == Some(c),
            None => first_cn_numeral(t@, 0) is None,
        },
{
    let n = t.len();
    let mut i: usize = 0;
    while i < n
        invariant
            i <= n == t@.len(),
            first_cn_numeral(t@, 0) == first_cn_numeral(t@, i as int),
        decreases n - i,
    {
        if cn_to_digit(t[i]).is_some() {
            return Some(t[i]);
        }
        i = i + 1;
    }
    None
}

/// Resolves the season number of a season-region text: the first
/// indicator match alone decides; 1 when there is none or when it carries
/// neither a digit run nor a CJK numeral.
pub fn season_of(region: &Vec<char>) -> (r: u32)
    ensures
        r == spec_season_of(region@),
{
    let ms = ex_season_matches(region);
    let ghost msd = spans_view(ms@);
    if ms.len() == 0 {
        proof {
            assert(msd.len() == 0);
        }
        return 1;
    }
    let (a, b) = ms[0];
    proof {
        assert(msd[0] == (a as int, b as int));
    }
    let t = subrange_chars(region, a, b);
    proof {
        assert(t@ == region@.subrange(msd[0].0, msd[0].1));
    }
    if let Some(d) = ex_first_digit_idx(&t) {
        let e = ex_drun_end(&t, d);
        proof {
            lemma_drun(t@, d as int);
            lemma_digits_val_nonneg(t@.subrange(d as int, e as int));
        }
        if let Some(v) = parse_u32(&t, d, e) {
            return v;
        }
        // unreachable: an indicator token holds at most two digits
        proof {
            assert(first_digit_run_val(t@) == Some(
                digits_val(t@.subrange(d as int, e as int)),
            ));
            lemma_season_bounds(region@);
        }
        return 1;
    }
    if let Some(c) = ex_first_cn_numeral(&t) {
        let v = cn_to_digit(c);
        proof {
            lemma_first_cn_numeral(t@, 0);
        }
        return v.unwrap();
    }
    1
}

} // verus!
