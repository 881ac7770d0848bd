//! The segmenter: one composite pattern, evaluated left to right, splits the
//! normalized text into a season region, an episode region and a trailer
//! region, after an optional leading bracket pair (the release group tag).
//!
//! The episode region is the first of thirteen ordered alternatives that
//! matches at the latest possible position: the season region is greedy, so
//! the episode indicator found is the last one in the text, and at that
//! position the alternatives are tried in order. The season and trailer
//! regions, and every single-character filler inside an alternative, accept
//! any character, line breaks included.
use vstd::prelude::*;

use crate::chars::is_digit;
use crate::textops::run_len;
use crate::textops::lemma_run_len;
use crate::textops::digit_run_end;

verus! {

// The CJK characters the episode alternatives recognize.
/// The ordinal prefix (U+7B2C).
pub const CJK_ORD: char = '\u{7B2C}';
/// "episode" suffix, simplified (U+8BDD).
pub const CJK_EP_A: char = '\u{8BDD}';
/// "episode" suffix, traditional (U+8A71).
pub const CJK_EP_B: char = '\u{8A71}';
/// "collection" suffix (U+96C6).
pub const CJK_EP_C: char = '\u{96C6}';
/// First character of the special-episode literal (U+7279).
pub const CJK_SPECIAL: char = '\u{7279}';
/// Middle character of the special-episode literal, traditional (U+5225).
pub const CJK_BIE_A: char = '\u{5225}';
/// Middle character of the special-episode literal, simplified (U+522B).
pub const CJK_BIE_B: char = '\u{522B}';
/// Last character of the special- and compilation-episode literals (U+7BC7).
pub const CJK_PIAN: char = '\u{7BC7}';
/// First character of the compilation-episode literal, traditional (U+7E3D).
pub const CJK_ZONG_A: char = '\u{7E3D}';
/// First character of the compilation-episode literal, simplified (U+603B).
pub const CJK_ZONG_B: char = '\u{603B}';
/// First character of the batch-compilation literal (U+5408).
pub const CJK_HE: char = '\u{5408}';

/// Character `c` stands at position `i`.
pub open spec fn at_is(s: Seq<char>, i: int, c: char) -> bool {
    0 <= i < s.len() && s[i] == c
}

pub fn ex_at_is(s: &Vec<char>, i: usize, c: char) -> (r: bool)
    ensures
        r == at_is(s@, i as int, c),
{
    i < s.len() && s[i] == c
}

/// A decimal digit stands at position `i`.
pub open spec fn dig_at(s: Seq<char>, i: int) -> bool {
    0 <= i < s.len() && is_digit(s[i])
}

pub fn ex_dig_at(s: &Vec<char>, i: usize) -> (r: bool)
    ensures
        r == dig_at(s@, i as int),
{
    i < s.len() && '0' <= s[i] && s[i] <= '9'
}

/// A version marker letter stands at position `i`.
pub open spec fn vv_at(s: Seq<char>, i: int) -> bool {
    0 <= i < s.len() && (s[i] == 'v' || s[i] == 'V')
}

pub fn ex_vv_at(s: &Vec<char>, i: usize) -> (r: bool)
    ensures
        r == vv_at(s@, i as int),
{
    i < s.len() && (s[i] == 'v' || s[i] == 'V')
}

/// A CJK episode-count suffix stands at position `i`.
pub open spec fn ep_suffix_at(s: Seq<char>, i: int) -> bool {
    0 <= i < s.len() && (s[i] == CJK_EP_A || s[i] == CJK_EP_B || s[i] == CJK_EP_C)
}

pub fn ex_ep_suffix_at(s: &Vec<char>, i: usize) -> (r: bool)
    ensures
        r == ep_suffix_at(s@, i as int),
{
    i < s.len() && (s[i] == CJK_EP_A || s[i] == CJK_EP_B || s[i] == CJK_EP_C)
}

/// The length of the run of decimal digits starting at `i`.
pub open spec fn drun(s: Seq<char>, i: int) -> int {
    run_len(s, i, |c: char| is_digit(c))
}

pub proof fn lemma_drun(s: Seq<char>, i: int)
    requires
        0 <= i <= s.len(),
    ensures
        0 <= drun(s, i),
        i + drun(s, i) <= s.len(),
        forall|j: int| i <= j < i + drun(s, i) ==> is_digit(s[j]),
        i + drun(s, i) < s.len() ==> !is_digit(s[i + drun(s, i)]),
{
    lemma_run_len(s, i, |c: char| is_digit(c));
}

/// The run of digits starting at `i`, as an end position.
pub fn ex_drun_end(s: &Vec<char>, i: usize) -> (e: usize)
    requires
        i <= s@.len(),
    ensures
        e == i + drun(s@, i as int),
        i <= e <= s@.len(),
{
    proof {
        lemma_drun(s@, i as int);
    }
    digit_run_end(s, i)
}

/// The length of the run of characters other than `']'` starting at `i`.
pub open spec fn nbrun(s: Seq<char>, i: int) -> int {
    run_len(s, i, |c: char| c != ']')
}

pub proof fn lemma_nbrun(s: Seq<char>, i: int)
    requires
        0 <= i <= s.len(),
    ensures
        0 <= nbrun(s, i),
        i + nbrun(s, i) <= s.len(),
        forall|j: int| i <= j < i + nbrun(s, i) ==> s[j] != ']',
        i + nbrun(s, i) < s.len() ==> s[i + nbrun(s, i)] == ']',
{
    lemma_run_len(s, i, |c: char| c != ']');
}

pub fn ex_nbrun_end(s: &Vec<char>, i: usize) -> (e: usize)
    requires
        i <= s@.len(),
    ensures
        e == i + nbrun(s@, i as int),
        i <= e <= s@.len(),
    decreases s@.len() - i,
{
    proof {
        lemma_run_len(s@, i as int, |c: char| c != ']');
    }
    if i < s.len() && s[i] != ']' {
        let e = ex_nbrun_end(s, i + 1);
        e
    } else {
        i
    }
}

/// A parenthesized one-to-three digit run: `(` digits `)`.
pub open spec fn alt_paren(s: Seq<char>, i: int) -> Option<int> {
    let r = drun(s, i + 1);
    if at_is(s, i, '(') && 1 <= r <= 3 && at_is(s, i + 1 + r, ')') {
        Some(i + r + 2)
    } else {
        None
    }
}

/// A dash-introduced or space-introduced integer: space, optional dash,
/// space, digits.
pub open spec fn alt_dash_int(s: Seq<char>, i: int) -> Option<int> {
    if at_is(s, i, ' ') {
        if at_is(s, i + 1, '-') && at_is(s, i + 2, ' ') && drun(s, i + 3) >= 1 {
            Some(i + 3 + drun(s, i + 3))
        } else if at_is(s, i + 1, ' ') && drun(s, i + 2) >= 1 {
            Some(i + 2 + drun(s, i + 2))
        } else {
            None
        }
    } else {
        None
    }
}

/// A bracketed integer: `[` digits `]`.
pub open spec fn alt_br_int(s: Seq<char>, i: int) -> Option<int> {
    let r = drun(s, i + 1);
    if at_is(s, i, '[') && r >= 1 && at_is(s, i + 1 + r, ']') {
        Some(i + r + 2)
    } else {
        None
    }
}

/// A bracketed integer with a version suffix: `[` digits, an optional
/// filler character, `v` or `V`, one digit, `]`.
pub open spec fn alt_br_ver(s: Seq<char>, i: int) -> Option<int> {
    let r = drun(s, i + 1);
    if at_is(s, i, '[') && r >= 1 {
        if vv_at(s, i + 2 + r) && dig_at(s, i + 3 + r) && at_is(s, i + 4 + r, ']') {
            Some(i + 5 + r)
        } else if vv_at(s, i + 1 + r) && dig_at(s, i + 2 + r) && at_is(s, i + 3 + r, ']') {
            Some(i + 4 + r)
        } else {
            None
        }
    } else {
        None
    }
}

/// A CJK counted episode: the ordinal prefix, digits, an episode suffix.
pub open spec fn alt_cjk_ep(s: Seq<char>, i: int) -> Option<int> {
    let r = drun(s, i + 1);
    if at_is(s, i, CJK_ORD) && r >= 1 && ep_suffix_at(s, i + 1 + r) {
        Some(i + r + 2)
    } else {
        None
    }
}

/// A bracketed CJK counted episode: `[`, optional ordinal prefix, digits,
/// an episode suffix, `]`.
pub open spec fn alt_br_cjk_ep(s: Seq<char>, i: int) -> Option<int> {
    if at_is(s, i, '[') {
        let j = if at_is(s, i + 1, CJK_ORD) {
            i + 2
        } else {
            i + 1
        };
        let r = drun(s, j);
        if r >= 1 && ep_suffix_at(s, j + r) && at_is(s, j + r + 1, ']') {
            Some(j + r + 2)
        } else {
            None
        }
    } else {
        None
    }
}

/// The letters `END` stand at position `i`, followed by `]`.
pub open spec fn end_marker_at(s: Seq<char>, i: int) -> bool {
    at_is(s, i, 'E') && at_is(s, i + 1, 'N') && at_is(s, i + 2, 'D') && at_is(s, i + 3, ']')
}

/// A bracketed final-episode marker: `[` digits, an optional filler
/// character, `END]`.
pub open spec fn alt_br_end(s: Seq<char>, i: int) -> Option<int> {
    let r = drun(s, i + 1);
    if at_is(s, i, '[') && r >= 1 {
        if end_marker_at(s, i + 2 + r) {
            Some(i + 6 + r)
        } else if end_marker_at(s, i + 1 + r) {
            Some(i + 5 + r)
        } else {
            None
        }
    } else {
        None
    }
}

/// An `E`- or `EP`-prefixed integer.
pub open spec fn alt_ep_int(s: Seq<char>, i: int) -> Option<int> {
    if 0 <= i < s.len() && (s[i] == 'E' || s[i] == 'e') {
        let j = if 0 <= i + 1 < s.len() && (s[i + 1] == 'P' || s[i + 1] == 'p') {
            i + 2
        } else {
            i + 1
        };
        let r = drun(s, j);
        if r >= 1 {
            Some(j + r)
        } else {
            None
        }
    } else {
        None
    }
}

/// The special-episode literal, optionally bracketed; it has no digits.
pub open spec fn alt_special(s: Seq<char>, i: int) -> Option<int> {
    let j = if at_is(s, i, '[') {
        i + 1
    } else {
        i
    };
    if at_is(s, j, CJK_SPECIAL) && (at_is(s, j + 1, CJK_BIE_A) || at_is(s, j + 1, CJK_BIE_B))
        && at_is(s, j + 2, CJK_PIAN) {
        if at_is(s, j + 3, ']') {
            Some(j + 4)
        } else {
            Some(j + 3)
        }
    } else {
        None
    }
}

/// The compilation-episode literal, optionally bracketed; it has no digits.
pub open spec fn alt_compilation(s: Seq<char>, i: int) -> Option<int> {
    let j = if at_is(s, i, '[') {
        i + 1
    } else {
        i
    };
    if (at_is(s, j, CJK_ZONG_A) || at_is(s, j, CJK_ZONG_B)) && at_is(s, j + 1, CJK_EP_C) && at_is(
        s,
        j + 2,
        CJK_PIAN,
    ) {
        if at_is(s, j + 3, ']') {
            Some(j + 4)
        } else {
            Some(j + 3)
        }
    } else {
        None
    }
}

/// A bare space-delimited integer: space, digits, space.
pub open spec fn alt_bare_int(s: Seq<char>, i: int) -> Option<int> {
    let r = drun(s, i + 1);
    if at_is(s, i, ' ') && r >= 1 && at_is(s, i + 1 + r, ' ') {
        Some(i + r + 2)
    } else {
        None
    }
}

/// A digit range (a batch marker): one to four digits, a dash, one to four
/// digits.
pub open spec fn alt_range(s: Seq<char>, i: int) -> Option<int> {
    let r1 = drun(s, i);
    let r2 = drun(s, i + r1 + 1);
    if 0 <= i && 1 <= r1 <= 4 && at_is(s, i + r1, '-') && r2 >= 1 {
        if r2 <= 4 {
            Some(i + r1 + 1 + r2)
        } else {
            Some(i + r1 + 1 + 4)
        }
    } else {
        None
    }
}

/// The two-character batch-compilation literal.
pub open spec fn alt_batch(s: Seq<char>, i: int) -> Option<int> {
    if at_is(s, i, CJK_HE) && at_is(s, i + 1, CJK_EP_C) {
        Some(i + 2)
    } else {
        None
    }
}

/// The episode alternation: the first alternative, in the fixed order, that
/// matches at position `i`; the result is the match's end position.
pub open spec fn ep_match_at(s: Seq<char>, i: int) -> Option<int> {
    if alt_paren(s, i) is Some {
        alt_paren(s, i)
    } else if alt_dash_int(s, i) is Some {
        alt_dash_int(s, i)
    } else if alt_br_int(s, i) is Some {
        alt_br_int(s, i)
    } else if alt_br_ver(s, i) is Some {
        alt_br_ver(s, i)
    } else if alt_cjk_ep(s, i) is Some {
        alt_cjk_ep(s, i)
    } else if alt_br_cjk_ep(s, i) is Some {
        alt_br_cjk_ep(s, i)
    } else if alt_br_end(s, i) is Some {
        alt_br_end(s, i)
    } else if alt_ep_int(s, i) is Some {
        alt_ep_int(s, i)
    } else if alt_special(s, i) is Some {
        alt_special(s, i)
    } else if alt_compilation(s, i) is Some {
        alt_compilation(s, i)
    } else if alt_bare_int(s, i) is Some {
        alt_bare_int(s, i)
    } else if alt_range(s, i) is Some {
        alt_range(s, i)
    } else if alt_batch(s, i) is Some {
        alt_batch(s, i)
    } else {
        None
    }
}

/// An executable end position against a spec one.
pub open spec fn opt_end(r: Option<usize>) -> Option<int> {
    match r {
        Some(x) => Some(x as int),
        None => None,
    }
}

fn ex_alt_paren(s: &Vec<char>, i: usize) -> (r: Option<usize>)
    requires
        i < s@.len(),
    ensures
        opt_end(r) == alt_paren(s@, i as int),
{
    let n = s.len();
    if !ex_at_is(s, i, '(') {
        return None;
    }
    let e = ex_drun_end(s, i + 1);
    let r = e - (i + 1);
    if 1 <= r && r <= 3 && ex_at_is(s, e, ')') {
        Some(e + 1)
    } else {
        None
    }
}

fn ex_alt_dash_int(s: &Vec<char>, i: usize) -> (r: Option<usize>)
    requires
        i < s@.len(),
    ensures
        opt_end(r) == alt_dash_int(s@, i as int),
{
    let n = s.len();
    if !ex_at_is(s, i, ' ') {
        return None;
    }
    if ex_at_is(s, i + 1, '-') && ex_at_is(s, i + 2, ' ') {
        let e = ex_drun_end(s, i + 3);
        if e > i + 3 {
            return Some(e);
        }
        return None;
    }
    if ex_at_is(s, i + 1, ' ') {
        let e = ex_drun_end(s, i + 2);
        if e > i + 2 {
            return Some(e);
        }
    }
    None
}

fn ex_alt_br_int(s: &Vec<char>, i: usize) -> (r: Option<usize>)
    requires
        i < s@.len(),
    ensures
        opt_end(r) == alt_br_int(s@, i as int),
{
    let n = s.len();
    if !ex_at_is(s, i, '[') {
        return None;
    }
    let e = ex_drun_end(s, i + 1);
    if e > i + 1 && ex_at_is(s, e, ']') {
        Some(e + 1)
    } else {
        None
    }
}

fn ex_alt_br_ver(s: &Vec<char>, i: usize) -> (r: Option<usize>)
    requires
        i < s@.len(),
    ensures
        opt_end(r) == alt_br_ver(s@, i as int),
{
    let n = s.len();
    if !ex_at_is(s, i, '[') {
        return None;
    }
    let e = ex_drun_end(s, i + 1);
    if e == i + 1 {
        return None;
    }
    if e < s.len() && ex_vv_at(s, e + 1) && ex_dig_at(s, e + 2) && ex_at_is(s, e + 3, ']') {
        return Some(e + 4);
    }
    if ex_vv_at(s, e) && ex_dig_at(s, e + 1) && ex_at_is(s, e + 2, ']') {
        return Some(e + 3);
    }
    None
}

fn ex_alt_cjk_ep(s: &Vec<char>, i: usize) -> (r: Option<usize>)
    requires
        i < s@.len(),
    ensures
        opt_end(r) == alt_cjk_ep(s@, i as int),
{
    let n = s.len();
    if !ex_at_is(s, i, CJK_ORD) {
        return None;
    }
    let e = ex_drun_end(s, i + 1);
    if e > i + 1 && ex_ep_suffix_at(s, e) {
        Some(e + 1)
    } else {
        None
    }
}

fn ex_alt_br_cjk_ep(s: &Vec<char>, i: usize) -> (r: Option<usize>)
    requires
        i < s@.len(),
    ensures
        opt_end(r) == alt_br_cjk_ep(s@, i as int),
{
    let n = s.len();
    if !ex_at_is(s, i, '[') {
        return None;
    }
    let j = if ex_at_is(s, i + 1, CJK_ORD) {
        i + 2
    } else {
        i + 1
    };
    let e = ex_drun_end(s, j);
    if e > j && ex_ep_suffix_at(s, e) && ex_at_is(s, e + 1, ']') {
        Some(e + 2)
    } else {
        None
    }
}

fn ex_end_marker_at(s: &Vec<char>, i: usize) -> (r: bool)
    ensures
        r == end_marker_at(s@, i as int),
{
    let n = s.len();
    ex_at_is(s, i, 'E') && ex_at_is(s, i + 1, 'N') && ex_at_is(s, i + 2, 'D') && ex_at_is(
        s,
        i + 3,
        ']',
    )
}

fn ex_alt_br_end(s: &Vec<char>, i: usize) -> (r: Option<usize>)
    requires
        i < s@.len(),
    ensures
        opt_end(r) == alt_br_end(s@, i as int),
{
    let n = s.len();
    if !ex_at_is(s, i, '[') {
        return None;
    }
    let e = ex_drun_end(s, i + 1);
    if e == i + 1 {
        return None;
    }
    if e < s.len() && ex_end_marker_at(s, e + 1) {
        return Some(e + 5);
    }
    if ex_end_marker_at(s, e) {
        return Some(e + 4);
    }
    None
}

fn ex_alt_ep_int(s: &Vec<char>, i: usize) -> (r: Option<usize>)
    requires
        i < s@.len(),
    ensures
        opt_end(r) == alt_ep_int(s@, i as int),
{
    let n = s.len();
    if !(s[i] == 'E' || s[i] == 'e') {
        return None;
    }
    let j = if i + 1 < s.len() && (s[i + 1] == 'P' || s[i + 1] == 'p') {
        i + 2
    } else {
        i + 1
    };
    let e = ex_drun_end(s, j);
    if e > j {
        Some(e)
    } else {
        None
    }
}

fn ex_alt_special(s: &Vec<char>, i: usize) -> (r: Option<usize>)
    requires
        i < s@.len(),
    ensures
        opt_end(r) == alt_special(s@, i as int),
{
    let n = s.len();
    let j = if ex_at_is(s, i, '[') {
        i + 1
    } else {
        i
    };
    if ex_at_is(s, j, CJK_SPECIAL) && (ex_at_is(s, j + 1, CJK_BIE_A) || ex_at_is(s, j + 1, CJK_BIE_B))
        && ex_at_is(s, j + 2, CJK_PIAN) {
        if ex_at_is(s, j + 3, ']') {
            Some(j + 4)
        } else {
            Some(j + 3)
        }
    } else {
        None
    }
}

fn ex_alt_compilation(s: &Vec<char>, i: usize) -> (r: Option<usize>)
    requires
        i < s@.len(),
    ensures
        opt_end(r) == alt_compilation(s@, i as int),
{
    let n = s.len();
    let j = if ex_at_is(s, i, '[') {
        i + 1
    } else {
        i
    };
    if (ex_at_is(s, j, CJK_ZONG_A) || ex_at_is(s, j, CJK_ZONG_B)) && ex_at_is(s, j + 1, CJK_EP_C)
        && ex_at_is(s, j + 2, CJK_PIAN) {
        if ex_at_is(s, j + 3, ']') {
            Some(j + 4)
        } else {
            Some(j + 3)
        }
    } else {
        None
    }
}

fn ex_alt_bare_int(s: &Vec<char>, i: usize) -> (r: Option<usize>)
    requires
        i < s@.len(),
    ensures
        opt_end(r) == alt_bare_int(s@, i as int),
{
    let n = s.len();
    if !ex_at_is(s, i, ' ') {
        return None;
    }
    let e = ex_drun_end(s, i + 1);
    if e > i + 1 && ex_at_is(s, e, ' ') {
        Some(e + 1)
    } else {
        None
    }
}

fn ex_alt_range(s: &Vec<char>, i: usize) -> (r: Option<usize>)
    requires
        i < s@.len(),
    ensures
        opt_end(r) == alt_range(s@, i as int),
{
    let n = s.len();
    let e1 = ex_drun_end(s, i);
    let r1 = e1 - i;
    if 1 <= r1 && r1 <= 4 && ex_at_is(s, e1, '-') {
        let e2 = ex_drun_end(s, e1 + 1);
        let r2 = e2 - (e1 + 1);
        if r2 >= 1 {
            if r2 <= 4 {
                Some(e2)
            } else {
                Some(e1 + 1 + 4)
            }
        } else {
            None
        }
    } else {
        None
    }
}

fn ex_alt_batch(s: &Vec<char>, i: usize) -> (r: Option<usize>)
    requires
        i < s@.len(),
    ensures
        opt_end(r) == alt_batch(s@, i as int),
{
    let n = s.len();
    if ex_at_is(s, i, CJK_HE) && ex_at_is(s, i + 1, CJK_EP_C) {
        Some(i + 2)
    } else {
        None
    }
}

/// The episode alternation at position `i`.
pub fn ex_ep_match_at(s: &Vec<char>, i: usize) -> (r: Option<usize>)
    requires
        i < s@.len(),
    ensures
        opt_end(r) == ep_match_at(s@, i as int),
{
    if let Some(e) = ex_alt_paren(s, i) {
        return Some(e);
    }
    if let Some(e) = ex_alt_dash_int(s, i) {
        return Some(e);
    }
    if let Some(e) = ex_alt_br_int(s, i) {
        return Some(e);
    }
    if let Some(e) = ex_alt_br_ver(s, i) {
        return Some(e);
    }
    if let Some(e) = ex_alt_cjk_ep(s, i) {
        return Some(e);
    }
    if let Some(e) = ex_alt_br_cjk_ep(s, i) {
        return Some(e);
    }
    if let Some(e) = ex_alt_br_end(s, i) {
        return Some(e);
    }
    if let Some(e) = ex_alt_ep_int(s, i) {
        return Some(e);
    }
    if let Some(e) = ex_alt_special(s, i) {
        return Some(e);
    }
    if let Some(e) = ex_alt_compilation(s, i) {
        return Some(e);
    }
    if let Some(e) = ex_alt_bare_int(s, i) {
        return Some(e);
    }
    if let Some(e) = ex_alt_range(s, i) {
        return Some(e);
    }
    if let Some(e) = ex_alt_batch(s, i) {
        return Some(e);
    }
    None
}

/// The latest position in `[lo, e]` where the episode alternation matches.
pub open spec fn find_ep_down(s: Seq<char>, lo: int, e: int) -> Option<int>
    decreases e - lo + 1,
{
    if e < lo {
        None
    } else if ep_match_at(s, e) is Some {
        Some(e)
    } else {
        find_ep_down(s, lo, e - 1)
    }
}

pub proof fn lemma_find_ep_down(s: Seq<char>, lo: int, e: int)
    requires
        0 <= lo,
    ensures
        find_ep_down(s, lo, e) is Some ==> {
            let f = find_ep_down(s, lo, e).unwrap();
            lo <= f <= e && ep_match_at(s, f) is Some
        },
    decreases e - lo + 1,
{
    if e >= lo && !(ep_match_at(s, e) is Some) {
        lemma_find_ep_down(s, lo, e - 1);
    }
}

/// The latest episode match at or after `lo`, with its end.
pub fn ex_find_ep_down(s: &Vec<char>, lo: usize) -> (r: Option<(usize, usize)>)
    requires
        lo <= s@.len(),
    ensures
        match r {
            Some((e, d)) => find_ep_down(s@, lo as int, s@.len() - 1) == Some(e as int) && Some(
                d as int,
            ) == ep_match_at(s@, e as int) && lo <= e < d <= s@.len(),
            None => find_ep_down(s@, lo as int, s@.len() - 1) is None,
        },
{
    let mut e: usize = s.len();
    while e > lo
        invariant
            lo <= e <= s@.len(),
            find_ep_down(s@, lo as int, s@.len() - 1) == find_ep_down(s@, lo as int, e - 1),
        decreases e,
    {
        e = e - 1;
        if let Some(d) = ex_ep_match_at(s, e) {
            proof {
                lemma_ep_match_bounds(s@, e as int);
            }
            return Some((e, d));
        }
    }
    None
}

/// Position just past the closing bracket of a leading release-group tag:
/// an opening bracket at the very start, at least one character that is not
/// a closing bracket, and the closing bracket.
pub open spec fn lead_group_end(s: Seq<char>) -> Option<int> {
    let nb = nbrun(s, 1);
    if s.len() > 0 && s[0] == '[' && nb >= 1 && 1 + nb < s.len() {
        Some(1 + nb + 1)
    } else {
        None
    }
}

pub fn ex_lead_group_end(s: &Vec<char>) -> (r: Option<usize>)
    ensures
        opt_end(r) == lead_group_end(s@),
        r is Some ==> 2 <= r.unwrap() <= s@.len(),
{
    if s.len() == 0 || s[0] != '[' {
        return None;
    }
    let e = ex_nbrun_end(s, 1);
    if e > 1 && e < s.len() {
        Some(e + 1)
    } else {
        None
    }
}

/// The segmentation: season region start, episode region start, episode
/// region end. The trailer region is everything after the episode region.
/// Nothing is produced when no episode alternative matches anywhere.
pub open spec fn spec_segment(s: Seq<char>) -> Option<(int, int, int)> {
    match lead_group_end(s) {
        Some(q) => match find_ep_down(s, q, s.len() - 1) {
            Some(e) => Some((q, e, ep_match_at(s, e).unwrap())),
            None => spec_segment_plain(s),
        },
        None => spec_segment_plain(s),
    }
}

/// The segmentation with no leading group tag taken.
pub open spec fn spec_segment_plain(s: Seq<char>) -> Option<(int, int, int)> {
    match find_ep_down(s, 0, s.len() - 1) {
        Some(e) => Some((0, e, ep_match_at(s, e).unwrap())),
        None => None,
    }
}

/// A produced segmentation is three adjacent, in-bounds regions.
pub proof fn lemma_segment_bounds(s: Seq<char>)
    ensures
        spec_segment(s) is Some ==> {
            let (a, e, d) = spec_segment(s).unwrap();
            0 <= a <= e < d <= s.len()
        },
{
    if lead_group_end(s) is Some {
        let q = lead_group_end(s).unwrap();
        lemma_nbrun(s, 1);
        lemma_find_ep_down(s, q, s.len() - 1);
        if find_ep_down(s, q, s.len() - 1) is Some {
            let e = find_ep_down(s, q, s.len() - 1).unwrap();
            lemma_ep_match_bounds(s, e);
        }
    }
    lemma_find_ep_down(s, 0, s.len() - 1);
    if find_ep_down(s, 0, s.len() - 1) is Some {
        let e = find_ep_down(s, 0, s.len() - 1).unwrap();
        lemma_ep_match_bounds(s, e);
    }
}

/// Splits the normalized text into its regions.
pub fn segment(s: &Vec<char>) -> (r: Option<(usize, usize, usize)>)
    ensures
        match r {
            Some((a, e, d)) => spec_segment(s@) == Some((a as int, e as int, d as int)) && a <= e
                < d <= s@.len(),
            None => spec_segment(s@) is None,
        },
{
    if let Some(q) = ex_lead_group_end(s) {
        if let Some((e, d)) = ex_find_ep_down(s, q) {
            return Some((q, e, d));
        }
    }
    if let Some((e, d)) = ex_find_ep_down(s, 0) {
        return Some((0, e, d));
    }
    None
}

/// Every episode match ends after its start and within the text.
pub proof fn lemma_ep_match_bounds(s: Seq<char>, i: int)
    requires
        0 <= i,
    ensures
        ep_match_at(s, i) is Some ==> i < ep_match_at(s, i).unwrap() <= s.len(),
{
    if 0 <= i + 1 <= s.len() {
        lemma_drun(s, i + 1);
    }
    if 0 <= i + 2 <= s.len() {
        lemma_drun(s, i + 2);
    }
    if 0 <= i + 3 <= s.len() {
        lemma_drun(s, i + 3);
    }
    if 0 <= i <= s.len() {
        lemma_drun(s, i);
        let r1 = drun(s, i);
        if 0 <= i + r1 + 1 <= s.len() {
            lemma_drun(s, i + r1 + 1);
        }
    }
}

} // verus!
