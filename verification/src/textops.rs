//! Small verified operations on character sequences: runs of a character
//! class, trimming, slicing, digit parsing, and the conversions between
//! `String` and `Vec<char>`.
use vstd::prelude::*;

use crate::chars::ex_is_digit;
use crate::chars::ex_is_space;
use crate::chars::is_digit;
use crate::chars::is_space;
use crate::chars::digit_val;

verus! {

/// Relies on `String::push`: appends exactly the given character.
pub assume_specification[ String::push ](s: &mut String, c: char)
    ensures
        final(s)@ == old(s)@.push(c),
;

/// Length of the run of characters satisfying `p` that starts at `i`.
pub open spec fn run_len(s: Seq<char>, i: int, p: spec_fn(char) -> bool) -> int
    decreases s.len() - i,
{
    if 0 <= i && i < s.len() && p(s[i]) {
        1 + run_len(s, i + 1, p)
    } else {
        0
    }
}

pub proof fn lemma_run_len(s: Seq<char>, i: int, p: spec_fn(char) -> bool)
    requires
        0 <= i <= s.len(),
    ensures
        0 <= run_len(s, i, p),
        i + run_len(s, i, p) <= s.len(),
        forall|j: int| i <= j < i + run_len(s, i, p) ==> p(s[j]),
        i + run_len(s, i, p) < s.len() ==> !p(s[i + run_len(s, i, p)]),
    decreases s.len() - i,
{
    if i < s.len() && p(s[i]) {
        lemma_run_len(s, i + 1, p);
    }
}

/// The leading white space of `s`, counted from `i`.
pub fn space_run_end(s: &Vec<char>, i: usize) -> (e: usize)
    requires
        i <= s@.len(),
    ensures
        e == i + run_len(s@, i as int, |c: char| is_space(c)),
        e <= s@.len(),
    decreases s@.len() - i,
{
    proof {
        lemma_run_len(s@, i as int, |c: char| is_space(c));
    }
    if i < s.len() && ex_is_space(s[i]) {
        let e = space_run_end(s, i + 1);
        e
    } else {
        i
    }
}

/// The run of decimal digits that starts at `i`.
pub fn digit_run_end(s: &Vec<char>, i: usize) -> (e: usize)
    requires
        i <= s@.len(),
    ensures
        e == i + run_len(s@, i as int, |c: char| is_digit(c)),
        e <= s@.len(),
    decreases s@.len() - i,
{
    proof {
        lemma_run_len(s@, i as int, |c: char| is_digit(c));
    }
    if i < s.len() && ex_is_digit(s[i]) {
        let e = digit_run_end(s, i + 1);
        e
    } else {
        i
    }
}

/// The white space runs at the two ends of `s`; what `trim` removes.
pub open spec fn trim_lo(s: Seq<char>) -> int {
    run_len(s, 0, |c: char| is_space(c))
}

/// Length of the run of white space that ends just before `i`.
pub open spec fn space_run_rev(s: Seq<char>, i: int) -> int
    decreases i,
{
    if 0 < i && i <= s.len() && is_space(s[i - 1]) {
        1 + space_run_rev(s, i - 1)
    } else {
        0
    }
}

pub proof fn lemma_space_run_rev(s: Seq<char>, i: int)
    requires
        0 <= i <= s.len(),
    ensures
        0 <= space_run_rev(s, i) <= i,
        forall|j: int| i - space_run_rev(s, i) <= j < i ==> is_space(s[j]),
        i - space_run_rev(s, i) > 0 ==> !is_space(s[i - space_run_rev(s, i) - 1]),
    decreases i,
{
    if 0 < i && is_space(s[i - 1]) {
        lemma_space_run_rev(s, i - 1);
    }
}

/// The view of `s` with white space removed from both ends.
pub open spec fn spec_trim(s: Seq<char>) -> Seq<char> {
    if trim_lo(s) == s.len() {
        Seq::empty()
    } else {
        s.subrange(trim_lo(s), s.len() - space_run_rev(s, s.len() as int))
    }
}

proof fn lemma_trim_bounds(s: Seq<char>)
    requires
        trim_lo(s) < s.len(),
    ensures
        0 <= trim_lo(s),
        trim_lo(s) < s.len() - space_run_rev(s, s.len() as int) <= s.len(),
{
    let p = |c: char| is_space(c);
    lemma_run_len(s, 0, p);
    lemma_space_run_rev(s, s.len() as int);
    let lo = trim_lo(s);
    assert(!p(s[lo]));
    assert(!is_space(s[lo]));
    // the trailing run cannot reach past the non-space character at lo
    let r = space_run_rev(s, s.len() as int);
    if s.len() - r <= lo {
        assert(is_space(s[lo]));
    }
}

/// Copy of `s[lo..hi]`.
pub fn subrange_chars(s: &Vec<char>, lo: usize, hi: usize) -> (r: Vec<char>)
    requires
        lo <= hi <= s@.len(),
    ensures
        r@ == s@.subrange(lo as int, hi as int),
{
    let mut r: Vec<char> = Vec::new();
    let mut i: usize = lo;
    while i < hi
        invariant
            lo <= i <= hi <= s@.len(),
            r@ == s@.subrange(lo as int, i as int),
        decreases hi - i,
    {
        r.push(s[i]);
        i = i + 1;
        proof {
            assert(r@ =~= s@.subrange(lo as int, i as int));
        }
    }
    r
}

/// `s` with white space removed from both ends.
pub fn trim_chars(s: &Vec<char>) -> (r: Vec<char>)
    ensures
        r@ == spec_trim(s@),
{
    let lo = space_run_end(s, 0);
    proof {
        lemma_run_len(s@, 0, |c: char| is_space(c));
    }
    if lo == s.len() {
        proof {
            assert(spec_trim(s@) =~= Seq::<char>::empty());
        }
        Vec::new()
    } else {
        // scan the trailing run of white space
        let mut hi: usize = s.len();
        while hi > lo && ex_is_space(s[hi - 1])
            invariant
                lo <= hi <= s@.len(),
                space_run_rev(s@, s@.len() as int) == space_run_rev(s@, hi as int) + (s@.len()
                    - hi),
                forall|j: int| hi <= j < s@.len() ==> is_space(s@[j]),
            decreases hi,
        {
            hi = hi - 1;
        }
        proof {
            lemma_trim_bounds(s@);
            lemma_space_run_rev(s@, hi as int);
            if hi > lo {
                assert(space_run_rev(s@, hi as int) == 0);
            } else {
                assert(hi == lo);
                assert(!is_space(s@[lo as int]));
                assert(space_run_rev(s@, hi as int) == 0);
            }
            assert(hi == s@.len() - space_run_rev(s@, s@.len() as int));
        }
        subrange_chars(s, lo, hi)
    }
}

/// The number written by a sequence of decimal digits, most significant
/// first; 0 for the empty sequence.
pub open spec fn digits_val(s: Seq<char>) -> int
    decreases s.len(),
{
    if s.len() == 0 {
        0
    } else {
        digits_val(s.drop_last()) * 10 + digit_val(s.last())
    }
}

pub proof fn lemma_digits_val_nonneg(s: Seq<char>)
    requires
        forall|j: int| 0 <= j < s.len() ==> is_digit(s[j]),
    ensures
        digits_val(s) >= 0,
    decreases s.len(),
{
    if s.len() > 0 {
        lemma_digits_val_nonneg(s.drop_last());
    }
}

proof fn lemma_digits_val_prefix(s: Seq<char>, i: int)
    requires
        forall|j: int| 0 <= j < s.len() ==> is_digit(s[j]),
        0 <= i <= s.len(),
    ensures
        digits_val(s.subrange(0, i)) <= digits_val(s),
    decreases s.len() - i,
{
    if i < s.len() {
        lemma_digits_val_prefix(s, i + 1);
        let a = s.subrange(0, i);
        let b = s.subrange(0, i + 1);
        assert(b.drop_last() =~= a);
        lemma_digits_val_nonneg(a);
        assert(digits_val(b) == digits_val(a) * 10 + digit_val(b.last()));
        assert(digit_val(b.last()) >= 0);
        assert(digits_val(a) * 10 >= digits_val(a)) by (nonlinear_arith)
            requires digits_val(a) >= 0;
    } else {
        assert(s.subrange(0, i) =~= s);
    }
}

/// Parses `s[lo..hi]` as a decimal number: the digits' value if it fits in
/// `u32`, and nothing on overflow.
pub fn parse_u32(s: &Vec<char>, lo: usize, hi: usize) -> (r: Option<u32>)
    requires
        lo <= hi <= s@.len(),
        forall|j: int| lo <= j < hi ==> is_digit(s@[j]),
    ensures
        digits_val(s@.subrange(lo as int, hi as int)) <= u32::MAX ==> r == Some(
            digits_val(s@.subrange(lo as int, hi as int)) as u32,
        ),
        digits_val(s@.subrange(lo as int, hi as int)) > u32::MAX ==> r is None,
{
    let ghost d = s@.subrange(lo as int, hi as int);
    let mut acc: u32 = 0;
    let mut i: usize = lo;
    proof {
        assert(forall|j: int| 0 <= j < d.len() ==> is_digit(d[j]));
    }
    while i < hi
        invariant
            lo <= i <= hi <= s@.len(),
            forall|j: int| lo <= j < hi ==> is_digit(s@[j]),
            d == s@.subrange(lo as int, hi as int),
            forall|j: int| 0 <= j < d.len() ==> is_digit(d[j]),
            acc == digits_val(d.subrange(0, i - lo)),
        decreases hi - i,
    {
        let c = s[i];
        let dv: u32 = (c as u32) - ('0' as u32);
        proof {
            assert(is_digit(s@[i as int]));
            assert(dv == digit_val(c));
            assert(d.subrange(0, i + 1 - lo).drop_last() =~= d.subrange(0, i - lo));
            assert(d.subrange(0, i + 1 - lo).last() == c);
        }
        if acc > (u32::MAX - dv) / 10 {
            proof {
                lemma_digits_val_nonneg(d.subrange(0, i - lo));
                assert(digits_val(d.subrange(0, i + 1 - lo)) == acc * 10 + dv);
                assert(acc * 10 + dv > u32::MAX) by (nonlinear_arith)
                    requires
                        acc > (u32::MAX - dv) / 10,
                        acc >= 0,
                        0 <= dv <= 9,
                ;
                lemma_digits_val_prefix(d, i + 1 - lo);
            }
            return None;
        }
        proof {
            assert(acc * 10 + dv <= u32::MAX) by (nonlinear_arith)
                requires
                    acc <= (u32::MAX - dv) / 10,
                    acc >= 0,
                    0 <= dv <= 9,
            ;
            lemma_digits_val_nonneg(d.subrange(0, i - lo));
        }
        acc = acc * 10 + dv;
        i = i + 1;
    }
    proof {
        assert(d.subrange(0, hi - lo) =~= d);
    }
    Some(acc)
}

/// The characters of `s`, in order.
pub fn str_to_chars(s: &str) -> (v: Vec<char>)
    ensures
        v@ == s@,
{
    let n = s.unicode_len();
    let mut v: Vec<char> = Vec::new();
    let mut i: usize = 0;
    while i < n
        invariant
            i <= n == s@.len(),
            v@ == s@.subrange(0, i as int),
        decreases n - i,
    {
        v.push(s.get_char(i));
        i = i + 1;
        proof {
            assert(v@ =~= s@.subrange(0, i as int));
        }
    }
    proof {
        assert(v@ =~= s@);
    }
    v
}

/// Appends the characters of `s` to `dst`.
pub fn push_str_chars(dst: &mut Vec<char>, s: &str)
    ensures
        final(dst)@ == old(dst)@ + s@,
{
    let n = s.unicode_len();
    let mut i: usize = 0;
    while i < n
        invariant
            i <= n == s@.len(),
            dst@ == old(dst)@ + s@.subrange(0, i as int),
        decreases n - i,
    {
        dst.push(s.get_char(i));
        i = i + 1;
        proof {
            assert(dst@ =~= old(dst)@ + s@.subrange(0, i as int));
        }
    }
    proof {
        assert(old(dst)@ + s@.subrange(0, s@.len() as int) =~= old(dst)@ + s@);
    }
}

/// A `String` holding exactly the characters of `v`.
pub fn chars_to_string(v: &Vec<char>) -> (s: String)
    ensures
        s@ == v@,
{
    let mut s = String::new();
    let mut i: usize = 0;
    while i < v.len()
        invariant
            i <= v@.len(),
            s@ == v@.subrange(0, i as int),
        decreases v@.len() - i,
    {
        s.push(v[i]);
        i = i + 1;
        proof {
            assert(s@ =~= v@.subrange(0, i as int));
        }
    }
    proof {
        assert(s@ =~= v@);
    }
    s
}

} // verus!
