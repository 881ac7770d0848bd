//! The normalizer: folds stylistic bracket variants into square brackets
//! and strips noise annotations (seasonal-broadcast markers and
//! region-restriction markers) from the raw filename.
//!
//! It also recognizes the canonical already-renamed shape, which blocks
//! re-parsing.
use vstd::prelude::*;

use crate::chars::ex_is_kept;
use crate::chars::ex_is_soft_close;
use crate::chars::ex_is_soft_open;
use crate::chars::ex_is_space;
use crate::chars::is_digit;
use crate::chars::is_kept;
use crate::chars::is_soft_close;
use crate::chars::is_soft_open;
use crate::chars::is_space;
use crate::segment::ex_dig_at;
use crate::textops::lemma_run_len;
use crate::textops::run_len;
use crate::textops::spec_trim;
use crate::textops::subrange_chars;
use crate::textops::trim_chars;

verus! {

// The CJK characters the noise rules recognize.
/// The broadcast-slot character (U+756A).
pub const CJK_BAN: char = '\u{756A}';
/// First character of the region pair (U+6E2F).
pub const CJK_GANG: char = '\u{6E2F}';
/// Second character of the region pair (U+6FB3).
pub const CJK_AO: char = '\u{6FB3}';
/// First character of the island pair (U+53F0).
pub const CJK_TAI: char = '\u{53F0}';
/// Second character of the island pair, simplified (U+6E7E).
pub const CJK_WAN_A: char = '\u{6E7E}';
/// Second character of the island pair, traditional (U+7063).
pub const CJK_WAN_B: char = '\u{7063}';

/// The canonical marker `" - S##E## - "` stands at position `i`.
pub open spec fn marker_at(s: Seq<char>, i: int) -> bool {
    0 <= i && i + 12 <= s.len() && s[i] == ' ' && s[i + 1] == '-' && s[i + 2] == ' ' && s[i + 3]
        == 'S' && is_digit(s[i + 4]) && is_digit(s[i + 5]) && s[i + 6] == 'E' && is_digit(
        s[i + 7],
    ) && is_digit(s[i + 8]) && s[i + 9] == ' ' && s[i + 10] == '-' && s[i + 11] == ' '
}

/// The filename already has the canonical renamed shape: a `" - S##E## - "`
/// field with no line break after it.
pub open spec fn spec_is_formatted(s: Seq<char>) -> bool {
    exists|i: int|
        marker_at(s, i) && (forall|j: int| i + 12 <= j < s.len() ==> s[j] != '\n')
}

fn ex_marker_at(s: &Vec<char>, i: usize) -> (r: bool)
    requires
        i + 12 <= s@.len(),
    ensures
        r == marker_at(s@, i as int),
{
    let n = s.len();
    s[i] == ' ' && s[i + 1] == '-' && s[i + 2] == ' ' && s[i + 3] == 'S' && ex_dig_at(s, i + 4)
        && ex_dig_at(s, i + 5) && s[i + 6] == 'E' && ex_dig_at(s, i + 7) && ex_dig_at(s, i + 8)
        && s[i + 9] == ' ' && s[i + 10] == '-' && s[i + 11] == ' '
}

fn ex_tail_clean(s: &Vec<char>, e: usize) -> (r: bool)
    requires
        e <= s@.len(),
    ensures
        r == (forall|j: int| e <= j < s@.len() ==> s@[j] != '\n'),
{
    let mut j: usize = e;
    while j < s.len()
        invariant
            e <= j <= s@.len(),
            forall|k: int| e <= k < j ==> s@[k] != '\n',
        decreases s@.len() - j,
    {
        if s[j] == '\n' {
            return false;
        }
        j = j + 1;
    }
    true
}

/// Whether the filename already has the canonical renamed shape.
pub fn is_formatted(s: &Vec<char>) -> (r: bool)
    ensures
        r == spec_is_formatted(s@),
{
    if s.len() < 12 {
        return false;
    }
    let mut i: usize = 0;
    while i <= s.len() - 12
        invariant
            12 <= s@.len(),
            i <= s@.len() - 12 + 1,
            forall|k: int|
                0 <= k < i ==> !(marker_at(s@, k) && (forall|j: int|
                    k + 12 <= j < s@.len() ==> s@[j] != '\n')),
        decreases s@.len() - i,
    {
        if ex_marker_at(s, i) && ex_tail_clean(s, i + 12) {
            return true;
        }
        i = i + 1;
    }
    assert forall|k: int| marker_at(s@, k) implies k + 12 <= s@.len() by {}
    false
}

/// White space run length starting at `i`.
pub open spec fn srun(s: Seq<char>, i: int) -> int {
    run_len(s, i, |c: char| is_space(c))
}

/// The opening-bracket fold: every run of white space, stylistic opening
/// mark, run of white space becomes `" ["`; from position `i` on.
pub open spec fn fold_open(s: Seq<char>, i: int) -> Seq<char>
    decreases s.len() - i,
    when 0 <= i
    via fold_open_dec
{
    if i >= s.len() {
        Seq::empty()
    } else {
        let w = srun(s, i);
        if i + w < s.len() && is_soft_open(s[i + w]) {
            let w2 = srun(s, i + w + 1);
            seq![' ', '['] + fold_open(s, i + w + 1 + w2)
        } else {
            seq![s[i]] + fold_open(s, i + 1)
        }
    }
}

#[via_fn]
proof fn fold_open_dec(s: Seq<char>, i: int) {
    if 0 <= i < s.len() {
        lemma_run_len(s, i, |c: char| is_space(c));
        let w = srun(s, i);
        if i + w < s.len() && is_soft_open(s[i + w]) {
            lemma_run_len(s, i + w + 1, |c: char| is_space(c));
        }
    }
}

/// The closing-bracket fold: every run of white space, stylistic closing
/// mark, run of white space becomes `"] "`; from position `i` on.
pub open spec fn fold_close(s: Seq<char>, i: int) -> Seq<char>
    decreases s.len() - i,
    when 0 <= i
    via fold_close_dec
{
    if i >= s.len() {
        Seq::empty()
    } else {
        let w = srun(s, i);
        if i + w < s.len() && is_soft_close(s[i + w]) {
            let w2 = srun(s, i + w + 1);
            seq![']', ' '] + fold_close(s, i + w + 1 + w2)
        } else {
            seq![s[i]] + fold_close(s, i + 1)
        }
    }
}

#[via_fn]
proof fn fold_close_dec(s: Seq<char>, i: int) {
    if 0 <= i < s.len() {
        lemma_run_len(s, i, |c: char| is_space(c));
        let w = srun(s, i);
        if i + w < s.len() && is_soft_close(s[i + w]) {
            lemma_run_len(s, i + w + 1, |c: char| is_space(c));
        }
    }
}

fn ex_space_run_end(s: &Vec<char>, i: usize) -> (e: usize)
    requires
        i <= s@.len(),
    ensures
        e == i + srun(s@, i as int),
        i <= e <= s@.len(),
{
    proof {
        lemma_run_len(s@, i as int, |c: char| is_space(c));
    }
    crate::textops::space_run_end(s, i)
}

/// Applies the opening-bracket fold.
pub fn ex_fold_open(s: &Vec<char>) -> (r: Vec<char>)
    ensures
        r@ == fold_open(s@, 0),
{
    let n = s.len();
    let mut out: Vec<char> = Vec::new();
    let mut i: usize = 0;
    while i < n
        invariant
            i <= n == s@.len(),
            fold_open(s@, 0) == out@ + fold_open(s@, i as int),
        decreases n - i,
    {
        let e = ex_space_run_end(s, i);
        if e < n && ex_is_soft_open(s[e]) {
            let e2 = ex_space_run_end(s, e + 1);
            out.push(' ');
            out.push('[');
            proof {
                assert(fold_open(s@, i as int) == seq![' ', '['] + fold_open(s@, e2 as int));
                assert(out@ + fold_open(s@, e2 as int) =~= fold_open(s@, 0));
            }
            i = e2;
        } else {
            out.push(s[i]);
            proof {
                assert(fold_open(s@, i as int) == seq![s@[i as int]] + fold_open(s@, i + 1));
                assert(out@ + fold_open(s@, i + 1) =~= fold_open(s@, 0));
            }
            i = i + 1;
        }
    }
    proof {
        assert(fold_open(s@, n as int) =~= Seq::<char>::empty());
        assert(out@ =~= fold_open(s@, 0));
    }
    out
}

/// Applies the closing-bracket fold.
pub fn ex_fold_close(s: &Vec<char>) -> (r: Vec<char>)
    ensures
        r@ == fold_close(s@, 0),
{
    let n = s.len();
    let mut out: Vec<char> = Vec::new();
    let mut i: usize = 0;
    while i < n
        invariant
            i <= n == s@.len(),
            fold_close(s@, 0) == out@ + fold_close(s@, i as int),
        decreases n - i,
    {
        let e = ex_space_run_end(s, i);
        if e < n && ex_is_soft_close(s[e]) {
            let e2 = ex_space_run_end(s, e + 1);
            out.push(']');
            out.push(' ');
            proof {
                assert(fold_close(s@, i as int) == seq![']', ' '] + fold_close(s@, e2 as int));
                assert(out@ + fold_close(s@, e2 as int) =~= fold_close(s@, 0));
            }
            i = e2;
        } else {
            out.push(s[i]);
            proof {
                assert(fold_close(s@, i as int) == seq![s@[i as int]] + fold_close(s@, i + 1));
                assert(out@ + fold_close(s@, i + 1) =~= fold_close(s@, 0));
            }
            i = i + 1;
        }
    }
    proof {
        assert(fold_close(s@, n as int) =~= Seq::<char>::empty());
        assert(out@ =~= fold_close(s@, 0));
    }
    out
}

/// The tokenization copy: every character the normalizer does not keep
/// becomes the separator `'/'`.
pub open spec fn to_sep(s: Seq<char>) -> Seq<char> {
    s.map_values(|c: char| if is_kept(c) { c } else { '/' })
}

pub fn ex_to_sep(s: &Vec<char>) -> (r: Vec<char>)
    ensures
        r@ == to_sep(s@),
{
    let n = s.len();
    let mut out: Vec<char> = Vec::new();
    let mut i: usize = 0;
    while i < n
        invariant
            i <= n == s@.len(),
            out@ == to_sep(s@.subrange(0, i as int)),
        decreases n - i,
    {
        if ex_is_kept(s[i]) {
            out.push(s[i]);
        } else {
            out.push('/');
        }
        i = i + 1;
        proof {
            assert(out@ =~= to_sep(s@.subrange(0, i as int)));
        }
    }
    proof {
        assert(s@.subrange(0, n as int) =~= s@);
    }
    out
}

/// Length of the run of non-separator characters starting at `i`.
pub open spec fn tok_run(s: Seq<char>, i: int, sep: spec_fn(char) -> bool) -> int
    decreases s.len() - i,
{
    if 0 <= i && i < s.len() && !sep(s[i]) {
        1 + tok_run(s, i + 1, sep)
    } else {
        0
    }
}

pub proof fn lemma_tok_run(s: Seq<char>, i: int, sep: spec_fn(char) -> bool)
    requires
        0 <= i <= s.len(),
    ensures
        0 <= tok_run(s, i, sep),
        i + tok_run(s, i, sep) <= s.len(),
        forall|j: int| i <= j < i + tok_run(s, i, sep) ==> !sep(s[j]),
        i + tok_run(s, i, sep) < s.len() ==> sep(s[i + tok_run(s, i, sep)]),
    decreases s.len() - i,
{
    if i < s.len() && !sep(s[i]) {
        lemma_tok_run(s, i + 1, sep);
    }
}

/// The non-empty maximal runs of non-separator characters, from `i` on:
/// what splitting on the separator and discarding empty pieces yields.
pub open spec fn toks(s: Seq<char>, i: int, sep: spec_fn(char) -> bool) -> Seq<Seq<char>>
    decreases s.len() - i,
    when 0 <= i
    via toks_dec
{
    if i >= s.len() {
        Seq::empty()
    } else if sep(s[i]) {
        toks(s, i + 1, sep)
    } else {
        let r = tok_run(s, i, sep);
        seq![s.subrange(i, i + r)] + toks(s, i + r, sep)
    }
}

#[via_fn]
proof fn toks_dec(s: Seq<char>, i: int, sep: spec_fn(char) -> bool) {
    if 0 <= i < s.len() && !sep(s[i]) {
        lemma_tok_run(s, i, sep);
    }
}

/// Splits on `'/'`, discarding empty pieces.
pub fn ex_toks_slash(s: &Vec<char>) -> (r: Vec<Vec<char>>)
    ensures
        r.deep_view() == toks(s@, 0, |c: char| c == '/'),
{
    let n = s.len();
    let mut out: Vec<Vec<char>> = Vec::new();
    let mut i: usize = 0;
    while i < n
        invariant
            i <= n == s@.len(),
            toks(s@, 0, |c: char| c == '/') == out.deep_view() + toks(
                s@,
                i as int,
                |c: char| c == '/',
            ),
        decreases n - i,
    {
        if s[i] == '/' {
            i = i + 1;
        } else {
            let mut e: usize = i;
            while e < n && s[e] != '/'
                invariant
                    i <= e <= n == s@.len(),
                    forall|k: int| i <= k < e ==> s@[k] != '/',
                decreases n - e,
            {
                e = e + 1;
            }
            proof {
                lemma_tok_run(s@, i as int, |c: char| c == '/');
                let r = tok_run(s@, i as int, |c: char| c == '/');
                if i + r < e {
                    assert(s@[i + r] != '/');
                }
                if e < i + r {
                    assert(s@[e as int] == '/');
                }
                assert(e == i + r);
            }
            let piece = subrange_chars(s, i, e);
            let ghost pre_dv = out.deep_view();
            out.push(piece);
            proof {
                assert(piece.deep_view() =~= piece@);
                assert(out.deep_view() =~= pre_dv.push(s@.subrange(i as int, e as int)));
                assert(toks(s@, i as int, |c: char| c == '/') == seq![
                    s@.subrange(i as int, e as int),
                ] + toks(s@, e as int, |c: char| c == '/'));
                assert(out.deep_view() + toks(s@, e as int, |c: char| c == '/') =~= toks(
                    s@,
                    0,
                    |c: char| c == '/',
                ));
            }
            i = e;
        }
    }
    proof {
        assert(toks(s@, n as int, |c: char| c == '/') =~= Seq::<Seq<char>>::empty());
        assert(out.deep_view() =~= toks(s@, 0, |c: char| c == '/'));
    }
    out
}

/// Splits on white space, discarding empty pieces.
pub fn ex_toks_space(s: &Vec<char>) -> (r: Vec<Vec<char>>)
    ensures
        r.deep_view() == toks(s@, 0, |c: char| is_space(c)),
{
    let n = s.len();
    let mut out: Vec<Vec<char>> = Vec::new();
    let mut i: usize = 0;
    while i < n
        invariant
            i <= n == s@.len(),
            toks(s@, 0, |c: char| is_space(c)) == out.deep_view() + toks(
                s@,
                i as int,
                |c: char| is_space(c),
            ),
        decreases n - i,
    {
        if ex_is_space(s[i]) {
            i = i + 1;
        } else {
            let mut e: usize = i;
            while e < n && !ex_is_space(s[e])
                invariant
                    i <= e <= n == s@.len(),
                    forall|k: int| i <= k < e ==> !is_space(s@[k]),
                decreases n - e,
            {
                e = e + 1;
            }
            proof {
                lemma_tok_run(s@, i as int, |c: char| is_space(c));
                let r = tok_run(s@, i as int, |c: char| is_space(c));
                if i + r < e {
                    assert(!is_space(s@[i + r]));
                }
                if e < i + r {
                    assert(is_space(s@[e as int]));
                }
                assert(e == i + r);
            }
            let piece = subrange_chars(s, i, e);
            let ghost pre_dv = out.deep_view();
            out.push(piece);
            proof {
                assert(piece.deep_view() =~= piece@);
                assert(out.deep_view() =~= pre_dv.push(s@.subrange(i as int, e as int)));
                assert(toks(s@, i as int, |c: char| is_space(c)) == seq![
                    s@.subrange(i as int, e as int),
                ] + toks(s@, e as int, |c: char| is_space(c)));
                assert(out.deep_view() + toks(s@, e as int, |c: char| is_space(c)) =~= toks(
                    s@,
                    0,
                    |c: char| is_space(c),
                ));
            }
            i = e;
        }
    }
    proof {
        assert(toks(s@, n as int, |c: char| is_space(c)) =~= Seq::<Seq<char>>::empty());
        assert(out.deep_view() =~= toks(s@, 0, |c: char| is_space(c)));
    }
    out
}

/// Token `t` stands at position `i` of `s`.
pub open spec fn token_at(s: Seq<char>, i: int, t: Seq<char>) -> bool {
    0 <= i && i + t.len() <= s.len() && s.subrange(i, i + t.len()) == t
}

pub fn ex_token_at(s: &Vec<char>, i: usize, t: &Vec<char>) -> (r: bool)
    requires
        i <= s@.len(),
    ensures
        r == token_at(s@, i as int, t@),
{
    let n = s.len();
    if t.len() > n - i {
        return false;
    }
    let mut k: usize = 0;
    while k < t.len()
        invariant
            i + t@.len() <= s@.len(),
            n == s@.len(),
            k <= t@.len(),
            forall|j: int| 0 <= j < k ==> s@[i + j] == t@[j],
        decreases t@.len() - k,
    {
        if s[i + k] != t[k] {
            proof {
                assert(s@.subrange(i as int, i + t@.len())[k as int] != t@[k as int]);
            }
            return false;
        }
        k = k + 1;
    }
    proof {
        assert(s@.subrange(i as int, i + t@.len()) =~= t@);
    }
    true
}

/// The token holds the seasonal-broadcast character.
pub open spec fn has_banner(t: Seq<char>) -> bool {
    exists|i: int| 0 <= i < t.len() && t[i] == CJK_BAN
}

pub fn ex_has_banner(t: &Vec<char>) -> (r: bool)
    ensures
        r == has_banner(t@),
{
    let mut i: usize = 0;
    while i < t.len()
        invariant
            i <= t@.len(),
            forall|k: int| 0 <= k < i ==> t@[k] != CJK_BAN,
        decreases t@.len() - i,
    {
        if t[i] == CJK_BAN {
            return true;
        }
        i = i + 1;
    }
    false
}

/// The token holds a region-restriction pair.
pub open spec fn has_region(t: Seq<char>) -> bool {
    exists|i: int|
        0 <= i && i + 1 < t.len() && ((#[trigger] t[i] == CJK_GANG && t[i + 1] == CJK_AO) || (t[i]
            == CJK_TAI && (t[i + 1] == CJK_WAN_A || t[i + 1] == CJK_WAN_B)))
}

pub fn ex_has_region(t: &Vec<char>) -> (r: bool)
    ensures
        r == has_region(t@),
{
    let n = t.len();
    if n < 2 {
        return false;
    }
    let mut i: usize = 0;
    while i < n - 1
        invariant
            2 <= n == t@.len(),
            i <= n - 1,
            forall|k: int|
                0 <= k < i ==> !((#[trigger] t@[k] == CJK_GANG && t@[k + 1] == CJK_AO) || (t@[k]
                    == CJK_TAI && (t@[k + 1] == CJK_WAN_A || t@[k + 1] == CJK_WAN_B))),
        decreases n - i,
    {
        if (t[i] == CJK_GANG && t[i + 1] == CJK_AO) || (t[i] == CJK_TAI && (t[i + 1] == CJK_WAN_A
            || t[i + 1] == CJK_WAN_B)) {
            return true;
        }
        i = i + 1;
    }
    false
}

/// Removal of a seasonal-broadcast token: each occurrence is removed
/// together with at most one adjacent character on each side, the left one
/// not a closing bracket and the right one not an opening bracket.
pub open spec fn remove_banner(s: Seq<char>, t: Seq<char>, i: int) -> Seq<char>
    decreases s.len() - i,
    when 0 <= i
{
    if i >= s.len() {
        Seq::empty()
    } else if t.len() == 0 {
        s.subrange(i, s.len() as int)
    } else if s[i] != ']' && token_at(s, i + 1, t) {
        let e0 = i + 1 + t.len();
        if e0 < s.len() && s[e0] != '[' {
            remove_banner(s, t, e0 + 1)
        } else {
            remove_banner(s, t, e0)
        }
    } else if token_at(s, i, t) {
        let e0 = i + t.len();
        if e0 < s.len() && s[e0] != '[' {
            remove_banner(s, t, e0 + 1)
        } else {
            remove_banner(s, t, e0)
        }
    } else {
        seq![s[i]] + remove_banner(s, t, i + 1)
    }
}

/// Removal of a region-restriction token: each occurrence flanked by one
/// character on each side is removed with those characters. The flanking
/// characters may be any characters, line breaks included.
pub open spec fn remove_region(s: Seq<char>, t: Seq<char>, i: int) -> Seq<char>
    decreases s.len() - i,
    when 0 <= i
{
    if i >= s.len() {
        Seq::empty()
    } else if t.len() == 0 {
        s.subrange(i, s.len() as int)
    } else if token_at(s, i + 1, t) && i + 1 + t.len() < s.len() {
        remove_region(s, t, i + 2 + t.len())
    } else {
        seq![s[i]] + remove_region(s, t, i + 1)
    }
}

pub fn ex_remove_banner(s: &Vec<char>, t: &Vec<char>) -> (r: Vec<char>)
    requires
        t@.len() >= 1,
    ensures
        r@ == remove_banner(s@, t@, 0),
{
    let n = s.len();
    let mut out: Vec<char> = Vec::new();
    let mut i: usize = 0;
    while i < n
        invariant
            i <= n == s@.len(),
            t@.len() >= 1,
            remove_banner(s@, t@, 0) == out@ + remove_banner(s@, t@, i as int),
        decreases n - i,
    {
        if s[i] != ']' && ex_token_at(s, i + 1, t) {
            let e0 = i + 1 + t.len();
            if e0 < n && s[e0] != '[' {
                i = e0 + 1;
            } else {
                i = e0;
            }
        } else if ex_token_at(s, i, t) {
            let e0 = i + t.len();
            if e0 < n && s[e0] != '[' {
                i = e0 + 1;
            } else {
                i = e0;
            }
        } else {
            out.push(s[i]);
            proof {
                assert(remove_banner(s@, t@, i as int) == seq![s@[i as int]] + remove_banner(
                    s@,
                    t@,
                    i + 1,
                ));
                assert(out@ + remove_banner(s@, t@, i + 1) =~= remove_banner(s@, t@, 0));
            }
            i = i + 1;
        }
    }
    proof {
        assert(remove_banner(s@, t@, n as int) =~= Seq::<char>::empty());
        assert(out@ =~= remove_banner(s@, t@, 0));
    }
    out
}

pub fn ex_remove_region(s: &Vec<char>, t: &Vec<char>) -> (r: Vec<char>)
    requires
        t@.len() >= 1,
    ensures
        r@ == remove_region(s@, t@, 0),
{
    let n = s.len();
    let mut out: Vec<char> = Vec::new();
    let mut i: usize = 0;
    while i < n
        invariant
            i <= n == s@.len(),
            t@.len() >= 1,
            remove_region(s@, t@, 0) == out@ + remove_region(s@, t@, i as int),
        decreases n - i,
    {
        if ex_token_at(s, i + 1, t) && i + 1 + t.len() < n {
            i = i + 2 + t.len();
        } else {
            out.push(s[i]);
            proof {
                assert(remove_region(s@, t@, i as int) == seq![s@[i as int]] + remove_region(
                    s@,
                    t@,
                    i + 1,
                ));
                assert(out@ + remove_region(s@, t@, i + 1) =~= remove_region(s@, t@, 0));
            }
            i = i + 1;
        }
    }
    proof {
        assert(remove_region(s@, t@, n as int) =~= Seq::<char>::empty());
        assert(out@ =~= remove_region(s@, t@, 0));
    }
    out
}

/// The noise-removal pass: every token that is a short seasonal-broadcast
/// marker or a region-restriction marker is removed from the working text,
/// which is trimmed after each removal.
pub open spec fn apply_noise(cur: Seq<char>, tl: Seq<Seq<char>>, k: int) -> Seq<char>
    decreases tl.len() - k,
    when 0 <= k
{
    if k >= tl.len() {
        cur
    } else {
        let t = tl[k];
        if has_banner(t) && t.len() <= 5 {
            apply_noise(spec_trim(remove_banner(cur, t, 0)), tl, k + 1)
        } else if has_region(t) {
            apply_noise(spec_trim(remove_region(cur, t, 0)), tl, k + 1)
        } else {
            apply_noise(cur, tl, k + 1)
        }
    }
}

pub fn ex_apply_noise(cur0: Vec<char>, tl: &Vec<Vec<char>>) -> (r: Vec<char>)
    ensures
        r@ == apply_noise(cur0@, tl.deep_view(), 0),
{
    let ghost dv = tl.deep_view();
    let ghost orig = cur0@;
    let mut cur = cur0;
    let mut k: usize = 0;
    while k < tl.len()
        invariant
            k <= tl@.len(),
            dv == tl.deep_view(),
            dv.len() == tl@.len(),
            apply_noise(orig, dv, 0) == apply_noise(cur@, dv, k as int),
        decreases tl@.len() - k,
    {
        let t = &tl[k];
        proof {
            assert(dv[k as int] == t@);
        }
        if ex_has_banner(t) && t.len() <= 5 {
            let removed = ex_remove_banner(&cur, t);
            cur = trim_chars(&removed);
        } else if ex_has_region(t) {
            let removed = ex_remove_region(&cur, t);
            cur = trim_chars(&removed);
        }
        k = k + 1;
    }
    cur
}

/// The tokens the noise-removal pass inspects: the tokenization copy split
/// on the separator; if that yields a single token, that token split on
/// white space instead.
pub open spec fn spec_noise_tokens(s: Seq<char>) -> Seq<Seq<char>> {
    let tk = toks(to_sep(s), 0, |c: char| c == '/');
    if tk.len() == 1 {
        toks(tk[0], 0, |c: char| is_space(c))
    } else {
        tk
    }
}

/// The normalized filename: trimmed, bracket styles folded, trimmed, and
/// the noise tokens removed.
pub open spec fn spec_normalize(raw: Seq<char>) -> Seq<char> {
    let n3 = spec_trim(fold_close(fold_open(spec_trim(raw), 0), 0));
    apply_noise(n3, spec_noise_tokens(n3), 0)
}

/// Normalizes a raw filename.
pub fn normalize(raw: &Vec<char>) -> (r: Vec<char>)
    ensures
        r@ == spec_normalize(raw@),
{
    let t0 = trim_chars(raw);
    let t1 = ex_fold_open(&t0);
    let t2 = ex_fold_close(&t1);
    let n3 = trim_chars(&t2);
    let sep = ex_to_sep(&n3);
    let tk = ex_toks_slash(&sep);
    let tokens: Vec<Vec<char>> = if tk.len() == 1 {
        let inner = ex_toks_space(&tk[0]);
        proof {
            assert(tk.deep_view()[0] == tk@[0]@);
        }
        inner
    } else {
        tk
    };
    ex_apply_noise(n3, &tokens)
}

} // verus!
