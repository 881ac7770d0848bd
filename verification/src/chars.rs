//! Character classes the parsing rules are built from.
//!
//! Every class is defined once as a spec function over the character's
//! scalar value, with an executable twin proved against it.
use vstd::prelude::*;

verus! {

/// Unicode white space, the set `str::trim` and the grammar's blank runs use.
pub open spec fn is_space(c: char) -> bool {
    let u = c as u32;
    u == 0x09 || u == 0x0A || u == 0x0B || u == 0x0C || u == 0x0D || u == 0x20 || u == 0x85
        || u == 0xA0 || u == 0x1680 || (0x2000 <= u && u <= 0x200A) || u == 0x2028 || u == 0x2029
        || u == 0x202F || u == 0x205F || u == 0x3000
}

pub fn ex_is_space(c: char) -> (r: bool)
    ensures
        r == is_space(c),
{
    let u = c as u32;
    u == 0x09 || u == 0x0A || u == 0x0B || u == 0x0C || u == 0x0D || u == 0x20 || u == 0x85
        || u == 0xA0 || u == 0x1680 || (0x2000 <= u && u <= 0x200A) || u == 0x2028 || u == 0x2029
        || u == 0x202F || u == 0x205F || u == 0x3000
}

/// A decimal digit.
pub open spec fn is_digit(c: char) -> bool {
    '0' <= c && c <= '9'
}

pub fn ex_is_digit(c: char) -> (r: bool)
    ensures
        r == is_digit(c),
{
    '0' <= c && c <= '9'
}

/// The numeric value of a decimal digit.
pub open spec fn digit_val(c: char) -> int {
    c as int - '0' as int
}

/// A Latin letter.
pub open spec fn is_latin(c: char) -> bool {
    ('a' <= c && c <= 'z') || ('A' <= c && c <= 'Z')
}

pub fn ex_is_latin(c: char) -> (r: bool)
    ensures
        r == is_latin(c),
{
    ('a' <= c && c <= 'z') || ('A' <= c && c <= 'Z')
}

/// Whether a character is Unicode alphanumeric: the class is a function of
/// the character alone, but far too large to write out, so it is named and
/// tied to the standard library below.
pub uninterp spec fn unicode_alnum(c: char) -> bool;

/// Relies on `char::is_alphanumeric`: whether the character is a Unicode
/// letter or number; the result depends on the character alone.
pub assume_specification[ char::is_alphanumeric ](c: char) -> (r: bool)
    ensures
        r == unicode_alnum(c),
;

/// A word character: a Unicode letter or number, or an underscore.
pub open spec fn is_word(c: char) -> bool {
    unicode_alnum(c) || c == '_'
}

pub fn ex_is_word(c: char) -> (r: bool)
    ensures
        r == is_word(c),
{
    c.is_alphanumeric() || c == '_'
}

/// The common CJK ideograph block, plus the hiragana and katakana blocks:
/// the characters the normalizer keeps alongside word characters.
pub open spec fn is_cjk_kept(c: char) -> bool {
    let u = c as u32;
    (0x4E00 <= u && u <= 0x9FFF) || (0x3040 <= u && u <= 0x309F) || (0x30A0 <= u && u <= 0x30FF)
}

pub fn ex_is_cjk_kept(c: char) -> (r: bool)
    ensures
        r == is_cjk_kept(c),
{
    let u = c as u32;
    (0x4E00 <= u && u <= 0x9FFF) || (0x3040 <= u && u <= 0x309F) || (0x30A0 <= u && u <= 0x30FF)
}

/// A character the normalizer keeps as it stands; every other character is
/// treated as a separator when the text is tokenized.
pub open spec fn is_kept(c: char) -> bool {
    is_word(c) || is_space(c) || is_cjk_kept(c) || c == '-'
}

pub fn ex_is_kept(c: char) -> (r: bool)
    ensures
        r == is_kept(c),
{
    ex_is_word(c) || ex_is_space(c) || ex_is_cjk_kept(c) || c == '-'
}

/// The range that marks a token as Japanese: syllabaries and the other
/// blocks between the Samaritan block and the first common ideograph,
/// the first ideograph included.
pub open spec fn is_jp_mark(c: char) -> bool {
    let u = c as u32;
    0x0800 <= u && u <= 0x4E00
}

pub fn ex_is_jp_mark(c: char) -> (r: bool)
    ensures
        r == is_jp_mark(c),
{
    let u = c as u32;
    0x0800 <= u && u <= 0x4E00
}

/// The range that marks a token as Chinese: the common CJK ideographs.
pub open spec fn is_cn_mark(c: char) -> bool {
    let u = c as u32;
    0x4E00 <= u && u <= 0x9FA5
}

pub fn ex_is_cn_mark(c: char) -> (r: bool)
    ensures
        r == is_cn_mark(c),
{
    let u = c as u32;
    0x4E00 <= u && u <= 0x9FA5
}

/// A stylistic opening mark the normalizer folds into `" ["`.
pub open spec fn is_soft_open(c: char) -> bool {
    let u = c as u32;
    u == 0x3010 || u == 0xFF08 || u == 0x300C || c == '{'
}

pub fn ex_is_soft_open(c: char) -> (r: bool)
    ensures
        r == is_soft_open(c),
{
    let u = c as u32;
    u == 0x3010 || u == 0xFF08 || u == 0x300C || c == '{'
}

/// A stylistic closing mark the normalizer folds into `"] "`.
pub open spec fn is_soft_close(c: char) -> bool {
    let u = c as u32;
    u == 0x3011 || u == 0xFF09 || u == 0x300D || c == '}'
}

pub fn ex_is_soft_close(c: char) -> (r: bool)
    ensures
        r == is_soft_close(c),
{
    let u = c as u32;
    u == 0x3011 || u == 0xFF09 || u == 0x300D || c == '}'
}

} // verus!
