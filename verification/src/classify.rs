//! The title classifier: strips season indicators and stray brackets from
//! the season region, splits it into tokens, buckets each token by script
//! (Japanese before Chinese before English), and joins each bucket into one
//! title string.
use vstd::prelude::*;

use crate::chars::is_latin;
use crate::chars::is_cn_mark;
use crate::chars::is_jp_mark;
use crate::chars::is_space;
use crate::chars::ex_is_latin;
use crate::chars::ex_is_cn_mark;
use crate::chars::ex_is_jp_mark;
use crate::chars::ex_is_space;
use crate::season::season_match_at;
use crate::season::ex_season_match_at;
use crate::season::lemma_season_match_bounds;
use crate::segment::at_is;
use crate::segment::ex_at_is;
use crate::textops::spec_trim;
use crate::textops::subrange_chars;
use crate::textops::trim_chars;

verus! {

/// The season region with every season-indicator match removed.
pub open spec fn strip_seasons(s: Seq<char>, i: int) -> Seq<char>
    decreases s.len() - i,
    when 0 <= i
    via strip_seasons_dec
{
    if i >= s.len() {
        Seq::empty()
    } else {
        match season_match_at(s, i) {
            Some(e) => strip_seasons(s, e),
            None => seq![s[i]] + strip_seasons(s, i + 1),
        }
    }
}

#[via_fn]
proof fn strip_seasons_dec(s: Seq<char>, i: int) {
    if 0 <= i < s.len() {
        lemma_season_match_bounds(s, i);
    }
}

pub fn ex_strip_seasons(s: &Vec<char>) -> (r: Vec<char>)
    ensures
        r@ == strip_seasons(s@, 0),
{
    let n = s.len();
    let mut out: Vec<char> = Vec::new();
    let mut i: usize = 0;
    while i < n
        invariant
            i <= n == s@.len(),
            strip_seasons(s@, 0) == out@ + strip_seasons(s@, i as int),
        decreases n - i,
    {
        if let Some(e) = ex_season_match_at(s, i) {
            i = e;
        } else {
            out.push(s[i]);
            proof {
                assert(strip_seasons(s@, i as int) == seq![s@[i as int]] + strip_seasons(
                    s@,
                    i + 1,
                ));
                assert(out@ + strip_seasons(s@, i + 1) =~= strip_seasons(s@, 0));
            }
            i = i + 1;
        }
    }
    proof {
        assert(strip_seasons(s@, n as int) =~= Seq::<char>::empty());
        assert(out@ =~= strip_seasons(s@, 0));
    }
    out
}

/// The text with a leading opening bracket, a trailing closing bracket and
/// every empty bracket pair removed.
pub open spec fn strip_side(s: Seq<char>, i: int) -> Seq<char>
    decreases s.len() - i,
    when 0 <= i
{
    if i >= s.len() {
        Seq::empty()
    } else if i == 0 && s[0] == '[' {
        strip_side(s, 1)
    } else if s[i] == ']' && i + 1 == s.len() {
        strip_side(s, i + 1)
    } else if s[i] == '[' && i + 1 < s.len() && s[i + 1] == ']' {
        strip_side(s, i + 2)
    } else {
        seq![s[i]] + strip_side(s, i + 1)
    }
}

pub fn ex_strip_side(s: &Vec<char>) -> (r: Vec<char>)
    ensures
        r@ == strip_side(s@, 0),
{
    let n = s.len();
    let mut out: Vec<char> = Vec::new();
    let mut i: usize = 0;
    while i < n
        invariant
            i <= n == s@.len(),
            strip_side(s@, 0) == out@ + strip_side(s@, i as int),
        decreases n - i,
    {
        if i == 0 && s[0] == '[' {
            i = 1;
        } else if s[i] == ']' && i + 1 == n {
            i = i + 1;
        } else if s[i] == '[' && i + 1 < n && s[i + 1] == ']' {
            i = i + 2;
        } else {
            out.push(s[i]);
            proof {
                assert(strip_side(s@, i as int) == seq![s@[i as int]] + strip_side(s@, i + 1));
                assert(out@ + strip_side(s@, i + 1) =~= strip_side(s@, 0));
            }
            i = i + 1;
        }
    }
    proof {
        assert(strip_side(s@, n as int) =~= Seq::<char>::empty());
        assert(out@ =~= strip_side(s@, 0));
    }
    out
}

/// A title separator at position `i`: a slash, two white space characters,
/// a dash and two white space characters, or adjacent closing and opening
/// brackets. The result is the separator's length.
pub open spec fn sep_len_at(s: Seq<char>, i: int) -> Option<int> {
    if at_is(s, i, '/') {
        Some(1)
    } else if 0 <= i && i + 1 < s.len() && is_space(s[i]) && is_space(s[i + 1]) {
        Some(2)
    } else if at_is(s, i, '-') && 0 <= i && i + 2 < s.len() && is_space(s[i + 1]) && is_space(
        s[i + 2],
    ) {
        Some(3)
    } else if at_is(s, i, ']') && at_is(s, i + 1, '[') {
        Some(2)
    } else {
        None
    }
}

fn ex_sep_len_at(s: &Vec<char>, i: usize) -> (r: Option<usize>)
    requires
        i < s@.len(),
    ensures
        match r {
            Some(l) => sep_len_at(s@, i as int) == Some(l as int) && i + l <= s@.len() && 1 <= l,
            None => sep_len_at(s@, i as int) is None,
        },
{
    let n = s.len();
    if ex_at_is(s, i, '/') {
        return Some(1);
    }
    if n - i > 1 && ex_is_space(s[i]) && ex_is_space(s[i + 1]) {
        return Some(2);
    }
    if ex_at_is(s, i, '-') && n - i > 2 && ex_is_space(s[i + 1]) && ex_is_space(s[i + 2]) {
        return Some(3);
    }
    if ex_at_is(s, i, ']') && ex_at_is(s, i + 1, '[') {
        return Some(2);
    }
    None
}

/// The pieces of the text split on the title separators, empty pieces kept;
/// the current piece began at `p` and scanning stands at `i`.
pub open spec fn split_pieces(s: Seq<char>, p: int, i: int) -> Seq<Seq<char>>
    decreases s.len() - i,
    when 0 <= p <= i
{
    if i >= s.len() {
        seq![s.subrange(p, s.len() as int)]
    } else {
        match sep_len_at(s, i) {
            Some(l) => seq![s.subrange(p, i)] + split_pieces(s, i + l, i + l),
            None => split_pieces(s, p, i + 1),
        }
    }
}

/// Splits on the title separators and trims each piece.
pub fn ex_split_trimmed(s: &Vec<char>) -> (r: Vec<Vec<char>>)
    ensures
        r.deep_view() == split_pieces(s@, 0, 0).map_values(|t: Seq<char>| spec_trim(t)),
{
    let n = s.len();
    let mut out: Vec<Vec<char>> = Vec::new();
    let mut p: usize = 0;
    let mut i: usize = 0;
    while i < n
        invariant
            p <= i <= n == s@.len(),
            split_pieces(s@, 0, 0).map_values(|t: Seq<char>| spec_trim(t)) == out.deep_view()
                + split_pieces(s@, p as int, i as int).map_values(|t: Seq<char>| spec_trim(t)),
        decreases n - i,
    {
        if let Some(l) = ex_sep_len_at(s, i) {
            let piece = subrange_chars(s, p, i);
            let trimmed = trim_chars(&piece);
            let ghost pre = out.deep_view();
            out.push(trimmed);
            proof {
                assert(trimmed.deep_view() =~= spec_trim(s@.subrange(p as int, i as int)));
                assert(out.deep_view() =~= pre.push(spec_trim(s@.subrange(p as int, i as int))));
                assert(split_pieces(s@, p as int, i as int) == seq![
                    s@.subrange(p as int, i as int),
                ] + split_pieces(s@, i + l, i + l));
                assert(split_pieces(s@, p as int, i as int).map_values(
                    |t: Seq<char>| spec_trim(t),
                ) =~= seq![spec_trim(s@.subrange(p as int, i as int))] + split_pieces(
                    s@,
                    i + l,
                    i + l,
                ).map_values(|t: Seq<char>| spec_trim(t)));
                assert(out.deep_view() + split_pieces(s@, i + l, i + l).map_values(
                    |t: Seq<char>| spec_trim(t),
                ) =~= split_pieces(s@, 0, 0).map_values(|t: Seq<char>| spec_trim(t)));
            }
            i = i + l;
            p = i;
        } else {
            i = i + 1;
        }
    }
    let piece = subrange_chars(s, p, n);
    let trimmed = trim_chars(&piece);
    let ghost pre = out.deep_view();
    out.push(trimmed);
    proof {
        assert(trimmed.deep_view() =~= spec_trim(s@.subrange(p as int, n as int)));
        assert(out.deep_view() =~= pre.push(spec_trim(s@.subrange(p as int, n as int))));
        assert(split_pieces(s@, p as int, n as int) == seq![s@.subrange(p as int, n as int)]);
        assert(split_pieces(s@, p as int, n as int).map_values(|t: Seq<char>| spec_trim(t)) =~= seq![
            spec_trim(s@.subrange(p as int, n as int)),
        ]);
        assert(out.deep_view() =~= split_pieces(s@, 0, 0).map_values(|t: Seq<char>| spec_trim(t)));
    }
    out
}

/// The token holds an underscore.
pub open spec fn has_underscore(t: Seq<char>) -> bool {
    exists|i: int| 0 <= i < t.len() && t[i] == '_'
}

fn ex_has_underscore(t: &Vec<char>) -> (r: bool)
    ensures
        r == has_underscore(t@),
{
    let mut i: usize = 0;
    while i < t.len()
        invariant
            i <= t@.len(),
            forall|k: int| 0 <= k < i ==> t@[k] != '_',
        decreases t@.len() - i,
    {
        if t[i] == '_' {
            return true;
        }
        i = i + 1;
    }
    false
}

/// A spaced dash (space, dash, space) stands at position `i`.
pub open spec fn dash3_at(t: Seq<char>, i: int) -> bool {
    at_is(t, i, ' ') && at_is(t, i + 1, '-') && at_is(t, i + 2, ' ')
}

/// The token holds a spaced dash.
pub open spec fn has_dash3(t: Seq<char>) -> bool {
    exists|i: int| dash3_at(t, i)
}

fn ex_dash3_at(t: &Vec<char>, i: usize) -> (r: bool)
    ensures
        r == dash3_at(t@, i as int),
{
    let n = t.len();
    ex_at_is(t, i, ' ') && ex_at_is(t, i + 1, '-') && ex_at_is(t, i + 2, ' ')
}

fn ex_has_dash3(t: &Vec<char>) -> (r: bool)
    ensures
        r == has_dash3(t@),
{
    let mut i: usize = 0;
    while i < t.len()
        invariant
            i <= t@.len(),
            forall|k: int| 0 <= k < i ==> !dash3_at(t@, k),
        decreases t@.len() - i,
    {
        if ex_dash3_at(t, i) {
            return true;
        }
        i = i + 1;
    }
    assert forall|k: int| dash3_at(t@, k) implies 0 <= k < t@.len() by {}
    false
}

/// The list with its empty entries removed.
pub open spec fn drop_empty(l: Seq<Seq<char>>, k: int) -> Seq<Seq<char>>
    decreases l.len() - k,
    when 0 <= k
{
    if k >= l.len() {
        Seq::empty()
    } else if l[k].len() == 0 {
        drop_empty(l, k + 1)
    } else {
        seq![l[k]] + drop_empty(l, k + 1)
    }
}

fn ex_drop_empty(l: Vec<Vec<char>>) -> (r: Vec<Vec<char>>)
    ensures
        r.deep_view() == drop_empty(l.deep_view(), 0),
{
    let ghost dv = l.deep_view();
    let mut out: Vec<Vec<char>> = Vec::new();
    let mut k: usize = 0;
    let n = l.len();
    while k < n
        invariant
            k <= n == l@.len(),
            dv == l.deep_view(),
            dv.len() == l@.len(),
            drop_empty(dv, 0) == out.deep_view() + drop_empty(dv, k as int),
        decreases n - k,
    {
        let t = &l[k];
        proof {
            assert(dv[k as int] == t@);
        }
        if t.len() > 0 {
            let ghost pre = out.deep_view();
            let copied = subrange_chars(t, 0, t.len());
            proof {
                assert(copied@ =~= t@);
            }
            out.push(copied);
            proof {
                assert(out.deep_view() =~= pre.push(dv[k as int]));
                assert(drop_empty(dv, k as int) == seq![dv[k as int]] + drop_empty(dv, k + 1));
                assert(out.deep_view() + drop_empty(dv, k + 1) =~= drop_empty(dv, 0));
            }
        }
        k = k + 1;
    }
    proof {
        assert(drop_empty(dv, n as int) =~= Seq::<Seq<char>>::empty());
        assert(out.deep_view() =~= drop_empty(dv, 0));
    }
    out
}

/// The run of non-underscore characters starting at `i`.
pub open spec fn urun(t: Seq<char>, i: int) -> int
    decreases t.len() - i,
{
    if 0 <= i && i < t.len() && t[i] != '_' {
        1 + urun(t, i + 1)
    } else {
        0
    }
}

proof fn lemma_urun(t: Seq<char>, i: int)
    requires
        0 <= i <= t.len(),
    ensures
        0 <= urun(t, i),
        i + urun(t, i) <= t.len(),
        forall|j: int| i <= j < i + urun(t, i) ==> t[j] != '_',
        i + urun(t, i) < t.len() ==> t[i + urun(t, i)] == '_',
    decreases t.len() - i,
{
    if i < t.len() && t[i] != '_' {
        lemma_urun(t, i + 1);
    }
}

/// The non-empty runs between underscores.
pub open spec fn utoks(t: Seq<char>, i: int) -> Seq<Seq<char>>
    decreases t.len() - i,
    when 0 <= i
    via utoks_dec
{
    if i >= t.len() {
        Seq::empty()
    } else if t[i] == '_' {
        utoks(t, i + 1)
    } else {
        let r = urun(t, i);
        seq![t.subrange(i, i + r)] + utoks(t, i + r)
    }
}

#[via_fn]
proof fn utoks_dec(t: Seq<char>, i: int) {
    if 0 <= i < t.len() && t[i] != '_' {
        lemma_urun(t, i);
    }
}

/// Splitting a single token on underscores: the pieces, trimmed, with
/// empty results discarded.
pub open spec fn split_underscore(t: Seq<char>) -> Seq<Seq<char>> {
    drop_empty(utoks(t, 0).map_values(|x: Seq<char>| spec_trim(x)), 0)
}

fn ex_split_underscore(t: &Vec<char>) -> (r: Vec<Vec<char>>)
    ensures
        r.deep_view() == split_underscore(t@),
{
    let n = t.len();
    let mut out: Vec<Vec<char>> = Vec::new();
    let mut i: usize = 0;
    while i < n
        invariant
            i <= n == t@.len(),
            utoks(t@, 0).map_values(|x: Seq<char>| spec_trim(x)) == out.deep_view() + utoks(
                t@,
                i as int,
            ).map_values(|x: Seq<char>| spec_trim(x)),
        decreases n - i,
    {
        if t[i] == '_' {
            i = i + 1;
        } else {
            let mut e: usize = i;
            while e < n && t[e] != '_'
                invariant
                    i <= e <= n == t@.len(),
                    forall|k: int| i <= k < e ==> t@[k] != '_',
                decreases n - e,
            {
                e = e + 1;
            }
            proof {
                lemma_urun(t@, i as int);
                let r = urun(t@, i as int);
                if i + r < e {
                    assert(t@[i + r] != '_');
                }
                if e < i + r {
                    assert(t@[e as int] == '_');
                }
                assert(e == i + r);
            }
            let piece = subrange_chars(t, i, e);
            let trimmed = trim_chars(&piece);
            let ghost pre = out.deep_view();
            out.push(trimmed);
            proof {
                assert(trimmed.deep_view() =~= spec_trim(t@.subrange(i as int, e as int)));
                assert(out.deep_view() =~= pre.push(spec_trim(t@.subrange(i as int, e as int))));
                assert(utoks(t@, i as int) == seq![t@.subrange(i as int, e as int)] + utoks(
                    t@,
                    e as int,
                ));
                assert(utoks(t@, i as int).map_values(|x: Seq<char>| spec_trim(x)) =~= seq![
                    spec_trim(t@.subrange(i as int, e as int)),
                ] + utoks(t@, e as int).map_values(|x: Seq<char>| spec_trim(x)));
                assert(out.deep_view() + utoks(t@, e as int).map_values(|x: Seq<char>| spec_trim(x))
                    =~= utoks(t@, 0).map_values(|x: Seq<char>| spec_trim(x)));
            }
            i = e;
        }
    }
    proof {
        assert(utoks(t@, n as int) =~= Seq::<Seq<char>>::empty());
        assert(utoks(t@, n as int).map_values(|x: Seq<char>| spec_trim(x)) =~= Seq::<
            Seq<char>,
        >::empty());
        assert(out.deep_view() =~= utoks(t@, 0).map_values(|x: Seq<char>| spec_trim(x)));
    }
    ex_drop_empty(out)
}

/// The pieces of the token split on spaced dashes, raw; the current piece
/// began at `p` and scanning stands at `i`.
pub open spec fn dtoks(t: Seq<char>, p: int, i: int) -> Seq<Seq<char>>
    decreases t.len() - i,
    when 0 <= p <= i
{
    if i >= t.len() {
        seq![t.subrange(p, t.len() as int)]
    } else if dash3_at(t, i) {
        seq![t.subrange(p, i)] + dtoks(t, i + 3, i + 3)
    } else {
        dtoks(t, p, i + 1)
    }
}

/// Splitting a single token on spaced dashes: the pieces, trimmed, with
/// empty results discarded.
pub open spec fn split_dash(t: Seq<char>) -> Seq<Seq<char>> {
    drop_empty(dtoks(t, 0, 0).map_values(|x: Seq<char>| spec_trim(x)), 0)
}

fn ex_split_dash(t: &Vec<char>) -> (r: Vec<Vec<char>>)
    ensures
        r.deep_view() == split_dash(t@),
{
    let n = t.len();
    let mut out: Vec<Vec<char>> = Vec::new();
    let mut p: usize = 0;
    let mut i: usize = 0;
    while i < n
        invariant
            p <= i <= n == t@.len(),
            dtoks(t@, 0, 0).map_values(|x: Seq<char>| spec_trim(x)) == out.deep_view() + dtoks(
                t@,
                p as int,
                i as int,
            ).map_values(|x: Seq<char>| spec_trim(x)),
        decreases n - i,
    {
        if ex_dash3_at(t, i) {
            let piece = subrange_chars(t, p, i);
            let trimmed = trim_chars(&piece);
            let ghost pre = out.deep_view();
            out.push(trimmed);
            proof {
                assert(trimmed.deep_view() =~= spec_trim(t@.subrange(p as int, i as int)));
                assert(out.deep_view() =~= pre.push(spec_trim(t@.subrange(p as int, i as int))));
                assert(dtoks(t@, p as int, i as int) == seq![t@.subrange(p as int, i as int)]
                    + dtoks(t@, i + 3, i + 3));
                assert(dtoks(t@, p as int, i as int).map_values(|x: Seq<char>| spec_trim(x)) =~= seq![
                    spec_trim(t@.subrange(p as int, i as int)),
                ] + dtoks(t@, i + 3, i + 3).map_values(|x: Seq<char>| spec_trim(x)));
                assert(out.deep_view() + dtoks(t@, i + 3, i + 3).map_values(
                    |x: Seq<char>| spec_trim(x),
                ) =~= dtoks(t@, 0, 0).map_values(|x: Seq<char>| spec_trim(x)));
            }
            i = i + 3;
            p = i;
        } else {
            i = i + 1;
        }
    }
    let piece = subrange_chars(t, p, n);
    let trimmed = trim_chars(&piece);
    let ghost pre = out.deep_view();
    out.push(trimmed);
    proof {
        assert(trimmed.deep_view() =~= spec_trim(t@.subrange(p as int, n as int)));
        assert(out.deep_view() =~= pre.push(spec_trim(t@.subrange(p as int, n as int))));
        assert(dtoks(t@, p as int, n as int) == seq![t@.subrange(p as int, n as int)]);
        assert(dtoks(t@, p as int, n as int).map_values(|x: Seq<char>| spec_trim(x)) =~= seq![
            spec_trim(t@.subrange(p as int, n as int)),
        ]);
        assert(out.deep_view() =~= dtoks(t@, 0, 0).map_values(|x: Seq<char>| spec_trim(x)));
    }
    ex_drop_empty(out)
}

/// The token has two adjacent characters in the Japanese-marking range.
pub open spec fn has_jp_pair(t: Seq<char>) -> bool {
    exists|i: int| 0 <= i && i + 1 < t.len() && is_jp_mark(#[trigger] t[i]) && is_jp_mark(t[i + 1])
}

pub fn ex_has_jp_pair(t: &Vec<char>) -> (r: bool)
    ensures
        r == has_jp_pair(t@),
{
    let n = t.len();
    if n < 2 {
        return false;
    }
    let mut i: usize = 0;
    while i < n - 1
        invariant
            2 <= n == t@.len(),
            i <= n - 1,
            forall|k: int| 0 <= k < i ==> !(is_jp_mark(#[trigger] t@[k]) && is_jp_mark(t@[k + 1])),
        decreases n - i,
    {
        if ex_is_jp_mark(t[i]) && ex_is_jp_mark(t[i + 1]) {
            return true;
        }
        i = i + 1;
    }
    false
}

/// The token has two adjacent characters in the Chinese-marking range.
pub open spec fn has_cn_pair(t: Seq<char>) -> bool {
    exists|i: int| 0 <= i && i + 1 < t.len() && is_cn_mark(#[trigger] t[i]) && is_cn_mark(t[i + 1])
}

pub fn ex_has_cn_pair(t: &Vec<char>) -> (r: bool)
    ensures
        r == has_cn_pair(t@),
{
    let n = t.len();
    if n < 2 {
        return false;
    }
    let mut i: usize = 0;
    while i < n - 1
        invariant
            2 <= n == t@.len(),
            i <= n - 1,
            forall|k: int| 0 <= k < i ==> !(is_cn_mark(#[trigger] t@[k]) && is_cn_mark(t@[k + 1])),
        decreases n - i,
    {
        if ex_is_cn_mark(t[i]) && ex_is_cn_mark(t[i + 1]) {
            return true;
        }
        i = i + 1;
    }
    false
}

/// The token has three adjacent Latin letters.
pub open spec fn has_latin3(t: Seq<char>) -> bool {
    exists|i: int|
        0 <= i && i + 2 < t.len() && is_latin(#[trigger] t[i]) && is_latin(t[i + 1]) && is_latin(
            t[i + 2],
        )
}

pub fn ex_has_latin3(t: &Vec<char>) -> (r: bool)
    ensures
        r == has_latin3(t@),
{
    let n = t.len();
    if n < 3 {
        return false;
    }
    let mut i: usize = 0;
    while i < n - 2
        invariant
            3 <= n == t@.len(),
            i <= n - 2,
            forall|k: int|
                0 <= k < i ==> !(is_latin(#[trigger] t@[k]) && is_latin(t@[k + 1]) && is_latin(
                    t@[k + 2],
                )),
        decreases n - i,
    {
        if ex_is_latin(t[i]) && ex_is_latin(t[i + 1]) && ex_is_latin(t[i + 2]) {
            return true;
        }
        i = i + 1;
    }
    false
}

/// The tokens of one bucket, in order, chosen by `pick` from `k` on.
pub open spec fn bucket(tl: Seq<Seq<char>>, k: int, pick: spec_fn(Seq<char>) -> bool) -> Seq<
    Seq<char>,
>
    decreases tl.len() - k,
    when 0 <= k
{
    if k >= tl.len() {
        Seq::empty()
    } else if pick(tl[k]) {
        seq![tl[k]] + bucket(tl, k + 1, pick)
    } else {
        bucket(tl, k + 1, pick)
    }
}

/// The bucket tokens joined with single spaces, from `k` on.
pub open spec fn join_spaces(l: Seq<Seq<char>>, k: int) -> Seq<char>
    decreases l.len() - k,
    when 0 <= k
{
    if k >= l.len() {
        Seq::empty()
    } else if k == l.len() - 1 {
        l[k]
    } else {
        l[k] + seq![' '] + join_spaces(l, k + 1)
    }
}

/// The joined bucket, trimmed, with a cosmetic trailing space-and-dash
/// removed.
pub open spec fn clean_join(l: Seq<Seq<char>>) -> Seq<char> {
    let j = spec_trim(join_spaces(l, 0));
    if j.len() >= 2 && j[j.len() - 2] == ' ' && j[j.len() - 1] == '-' {
        j.subrange(0, j.len() - 2)
    } else {
        j
    }
}

/// The title a bucket yields: nothing for an empty bucket.
pub open spec fn bucket_title(l: Seq<Seq<char>>) -> Option<Seq<char>> {
    if l.len() == 0 {
        None
    } else {
        Some(clean_join(l))
    }
}

/// The classified tokens of a season region: season indicators and stray
/// brackets stripped, the text trimmed and split on the title separators;
/// a lone token is split again on underscores or on spaced dashes.
pub open spec fn title_tokens(region: Seq<char>) -> Seq<Seq<char>> {
    let st = spec_trim(strip_side(spec_trim(strip_seasons(region, 0)), 0));
    let pieces = split_pieces(st, 0, 0).map_values(|t: Seq<char>| spec_trim(t));
    if pieces.len() == 1 {
        let t0 = pieces[0];
        if has_underscore(t0) {
            split_underscore(t0)
        } else if has_dash3(t0) {
            split_dash(t0)
        } else {
            pieces
        }
    } else {
        pieces
    }
}

/// The three bucket titles of a season region: Chinese, English, Japanese.
pub open spec fn spec_title(region: Seq<char>) -> (Option<Seq<char>>, Option<Seq<char>>, Option<
    Seq<char>,
>) {
    let tt = title_tokens(region);
    (
        bucket_title(bucket(tt, 0, |t: Seq<char>| is_cn_token(t))),
        bucket_title(bucket(tt, 0, |t: Seq<char>| is_en_token(t))),
        bucket_title(bucket(tt, 0, |t: Seq<char>| is_jp_token(t))),
    )
}

fn push_all(dst: &mut Vec<char>, src: &Vec<char>)
    ensures
        final(dst)@ == old(dst)@ + src@,
{
    let mut k: usize = 0;
    while k < src.len()
        invariant
            k <= src@.len(),
            dst@ == old(dst)@ + src@.subrange(0, k as int),
        decreases src@.len() - k,
    {
        dst.push(src[k]);
        k = k + 1;
        proof {
            assert(old(dst)@ + src@.subrange(0, k as int) =~= dst@);
        }
    }
    proof {
        assert(src@.subrange(0, src@.len() as int) =~= src@);
    }
}

/// Joins a non-empty bucket and cleans the result.
fn ex_clean_join(l: &Vec<Vec<char>>) -> (r: Vec<char>)
    ensures
        r@ == clean_join(l.deep_view()),
{
    let ghost dv = l.deep_view();
    let n = l.len();
    let mut j: Vec<char> = Vec::new();
    let mut k: usize = 0;
    while k < n
        invariant
            k <= n == l@.len(),
            dv == l.deep_view(),
            dv.len() == l@.len(),
            join_spaces(dv, 0) == j@ + join_spaces(dv, k as int),
        decreases n - k,
    {
        let t = &l[k];
        proof {
            assert(dv[k as int] == t@);
        }
        push_all(&mut j, t);
        if k + 1 < n {
            j.push(' ');
            proof {
                assert(join_spaces(dv, k as int) == dv[k as int] + seq![' '] + join_spaces(
                    dv,
                    k + 1,
                ));
                assert(j@ + join_spaces(dv, k + 1) =~= join_spaces(dv, 0));
            }
        } else {
            proof {
                assert(join_spaces(dv, k as int) == dv[k as int]);
                assert(join_spaces(dv, k + 1) =~= Seq::<char>::empty());
                assert(j@ + join_spaces(dv, k + 1) =~= join_spaces(dv, 0));
            }
        }
        k = k + 1;
    }
    proof {
        if n == 0 {
            assert(join_spaces(dv, 0) =~= Seq::<char>::empty());
        }
        assert(join_spaces(dv, n as int) =~= Seq::<char>::empty());
        assert(j@ =~= join_spaces(dv, 0));
    }
    let tj = trim_chars(&j);
    let m = tj.len();
    if m >= 2 && tj[m - 2] == ' ' && tj[m - 1] == '-' {
        subrange_chars(&tj, 0, m - 2)
    } else {
        tj
    }
}

/// Classifies the tokens of a season region into the three buckets and
/// joins each; an empty bucket yields nothing.
pub fn title_of(region: &Vec<char>) -> (r: (Option<Vec<char>>, Option<Vec<char>>, Option<
    Vec<char>,
>))
    ensures
        ({
            let t = spec_title(region@);
            &&& (match r.0 {
                Some(v) => t.0 == Some(v@),
                None => t.0 is None,
            })
            &&& (match r.1 {
                Some(v) => t.1 == Some(v@),
                None => t.1 is None,
            })
            &&& (match r.2 {
                Some(v) => t.2 == Some(v@),
                None => t.2 is None,
            })
        }),
{
    let s0 = ex_strip_seasons(region);
    let s1 = trim_chars(&s0);
    let s2 = ex_strip_side(&s1);
    let st = trim_chars(&s2);
    let pieces = ex_split_trimmed(&st);
    let tokens: Vec<Vec<char>> = if pieces.len() == 1 {
        let t0 = &pieces[0];
        proof {
            assert(pieces.deep_view()[0] == t0@);
        }
        if ex_has_underscore(t0) {
            ex_split_underscore(t0)
        } else if ex_has_dash3(t0) {
            ex_split_dash(t0)
        } else {
            pieces
        }
    } else {
        pieces
    };
    let ghost tt = title_tokens(region@);
    proof {
        assert(tokens.deep_view() == tt);
    }
    let n = tokens.len();
    let mut cn: Vec<Vec<char>> = Vec::new();
    let mut en: Vec<Vec<char>> = Vec::new();
    let mut jp: Vec<Vec<char>> = Vec::new();
    let mut k: usize = 0;
    while k < n
        invariant
            k <= n == tokens@.len(),
            tt == tokens.deep_view(),
            tt.len() == tokens@.len(),
            bucket(tt, 0, |t: Seq<char>| is_cn_token(t)) == cn.deep_view() + bucket(
                tt,
                k as int,
                |t: Seq<char>| is_cn_token(t),
            ),
            bucket(tt, 0, |t: Seq<char>| is_en_token(t)) == en.deep_view() + bucket(
                tt,
                k as int,
                |t: Seq<char>| is_en_token(t),
            ),
            bucket(tt, 0, |t: Seq<char>| is_jp_token(t)) == jp.deep_view() + bucket(
                tt,
                k as int,
                |t: Seq<char>| is_jp_token(t),
            ),
        decreases n - k,
    {
        let t = &tokens[k];
        proof {
            assert(tt[k as int] == t@);
        }
        let t_jp = ex_has_jp_pair(t);
        let t_cn = ex_has_cn_pair(t);
        let t_en = ex_has_latin3(t);
        let copied = subrange_chars(t, 0, t.len());
        proof {
            assert(copied@ =~= t@);
        }
        if t_jp {
            let ghost pre = jp.deep_view();
            jp.push(copied);
            proof {
                assert(jp.deep_view() =~= pre.push(tt[k as int]));
                assert(jp.deep_view() + bucket(tt, k + 1, |t: Seq<char>| is_jp_token(t)) =~= bucket(
                    tt,
                    0,
                    |t: Seq<char>| is_jp_token(t),
                ));
            }
        } else if t_cn {
            let ghost pre = cn.deep_view();
            cn.push(copied);
            proof {
                assert(cn.deep_view() =~= pre.push(tt[k as int]));
                assert(cn.deep_view() + bucket(tt, k + 1, |t: Seq<char>| is_cn_token(t)) =~= bucket(
                    tt,
                    0,
                    |t: Seq<char>| is_cn_token(t),
                ));
            }
        } else if t_en {
            let ghost pre = en.deep_view();
            en.push(copied);
            proof {
                assert(en.deep_view() =~= pre.push(tt[k as int]));
                assert(en.deep_view() + bucket(tt, k + 1, |t: Seq<char>| is_en_token(t)) =~= bucket(
                    tt,
                    0,
                    |t: Seq<char>| is_en_token(t),
                ));
            }
        }
        k = k + 1;
    }
    proof {
        assert(bucket(tt, n as int, |t: Seq<char>| is_cn_token(t)) =~= Seq::<Seq<char>>::empty());
        assert(bucket(tt, n as int, |t: Seq<char>| is_en_token(t)) =~= Seq::<Seq<char>>::empty());
        assert(bucket(tt, n as int, |t: Seq<char>| is_jp_token(t)) =~= Seq::<Seq<char>>::empty());
        assert(cn.deep_view() =~= bucket(tt, 0, |t: Seq<char>| is_cn_token(t)));
        assert(en.deep_view() =~= bucket(tt, 0, |t: Seq<char>| is_en_token(t)));
        assert(jp.deep_view() =~= bucket(tt, 0, |t: Seq<char>| is_jp_token(t)));
    }
    let r_cn: Option<Vec<char>> = if cn.len() == 0 {
        None
    } else {
        Some(ex_clean_join(&cn))
    };
    let r_en: Option<Vec<char>> = if en.len() == 0 {
        None
    } else {
        Some(ex_clean_join(&en))
    };
    let r_jp: Option<Vec<char>> = if jp.len() == 0 {
        None
    } else {
        Some(ex_clean_join(&jp))
    };
    (r_cn, r_en, r_jp)
}

/// A token in the Japanese bucket: the Japanese mark wins over everything.
pub open spec fn is_jp_token(t: Seq<char>) -> bool {
    has_jp_pair(t)
}

/// A token in the Chinese bucket: a Chinese pair and no Japanese pair.
pub open spec fn is_cn_token(t: Seq<char>) -> bool {
    !has_jp_pair(t) && has_cn_pair(t)
}

/// A token in the English bucket: a Latin triple and no CJK pair.
pub open spec fn is_en_token(t: Seq<char>) -> bool {
    !has_jp_pair(t) && !has_cn_pair(t) && has_latin3(t)
}

} // verus!
