//! Laws the library keeps, stated and proved over the same spec functions
//! the public contracts use.
use vstd::prelude::*;

use crate::bangumi::Bangumi;
use crate::bangumi::BangumiTitle;
use crate::bangumi::dec_digits;
use crate::bangumi::pad2;
use crate::bangumi::spec_gen_filename;
use crate::bangumi::unknown_label;
use crate::chars::is_digit;
use crate::classify::has_cn_pair;
use crate::classify::has_jp_pair;
use crate::classify::is_cn_token;
use crate::classify::is_en_token;
use crate::classify::is_jp_token;
use crate::normalize::marker_at;
use crate::normalize::spec_is_formatted;
use crate::parser::spec_episode_of;
use crate::season::first_digit_run_val;
use crate::season::resolve_season;
use crate::season::season_match_at;
use crate::season::season_matches;
use crate::season::spec_season_of;

verus! {

proof fn lemma_digit_char(d: int)
    requires
        0 <= d <= 9,
    ensures
        is_digit(((d + 48) as u8) as char),
{
    assert(((d + 48) as u8) as char as u32 == d + 48);
}

/// A number below one hundred is padded to exactly two decimal digits.
proof fn lemma_pad2_two_digits(n: int)
    requires
        0 <= n < 100,
    ensures
        pad2(n).len() == 2,
        is_digit(pad2(n)[0]),
        is_digit(pad2(n)[1]),
{
    if n < 10 {
        lemma_digit_char(n);
        assert(is_digit('0')) by {
            assert('0' as u32 >= 48);
        }
    } else {
        lemma_digit_char(n / 10);
        lemma_digit_char(n % 10);
        assert(dec_digits(n / 10).len() == 1);
    }
}

/// Idempotence of renaming: the canonical filename generated from any
/// record whose season and episode fit two digits, and whose group label
/// and extension carry no line break, itself has the canonical shape — so
/// constructing a parser from it is refused.
pub proof fn lemma_generated_filename_is_refused(b: &Bangumi)
    requires
        b.season < 100,
        b.episode < 100,
        forall|j: int| 0 <= j < b.group@.len() ==> b.group@[j] != '\n',
        match b.extension {
            Some(e) => forall|j: int| 0 <= j < e@.len() ==> e@[j] != '\n',
            None => true,
        },
    ensures
        spec_is_formatted(spec_gen_filename(b)),
{
    let s = spec_gen_filename(b);
    let dt = b.title.spec_default_title();
    let sp = pad2(b.season as int);
    let ep = pad2(b.episode as int);
    let g = if b.group@.len() > 0 {
        b.group@
    } else {
        unknown_label()
    };
    let ext = match b.extension {
        Some(e) => e@,
        None => Seq::<char>::empty(),
    };
    lemma_pad2_two_digits(b.season as int);
    lemma_pad2_two_digits(b.episode as int);
    let i = dt.len() as int;
    assert(s =~= dt + seq![' ', '-', ' ', 'S'] + sp + seq!['E'] + ep + seq![' ', '-', ' '] + g
        + ext);
    assert(s[i] == ' ');
    assert(s[i + 1] == '-');
    assert(s[i + 2] == ' ');
    assert(s[i + 3] == 'S');
    assert(s[i + 4] == sp[0]);
    assert(s[i + 5] == sp[1]);
    assert(s[i + 6] == 'E');
    assert(s[i + 7] == ep[0]);
    assert(s[i + 8] == ep[1]);
    assert(s[i + 9] == ' ');
    assert(s[i + 10] == '-');
    assert(s[i + 11] == ' ');
    assert(marker_at(s, i));
    assert forall|j: int| i + 12 <= j < s.len() implies s[j] != '\n' by {
        if j < i + 12 + g.len() {
            assert(s[j] == g[j - (i + 12)]);
            if b.group@.len() == 0 {
                assert(g == unknown_label());
            }
        } else {
            assert(s[j] == ext[j - (i + 12 + g.len())]);
        }
    }
}

/// Total ordering of script classification: a token holding both a
/// Japanese-marking pair and a common-ideograph pair is classified
/// Japanese, never Chinese and never English.
pub proof fn lemma_script_priority(t: Seq<char>)
    requires
        has_jp_pair(t),
        has_cn_pair(t),
    ensures
        is_jp_token(t),
        !is_cn_token(t),
        !is_en_token(t),
{
}

/// When no season indicator matches anywhere from `i` on, no span is found.
proof fn lemma_no_matches(region: Seq<char>, i: int)
    requires
        0 <= i,
        forall|k: int| #[trigger] season_match_at(region, k) is None,
    ensures
        season_matches(region, i) == Seq::<(int, int)>::empty(),
    decreases region.len() - i,
{
    if i < region.len() {
        lemma_no_matches(region, i + 1);
    }
}

/// Season default: a season-region text in which no season-indicator
/// pattern matches resolves to season 1.
pub proof fn lemma_season_default(region: Seq<char>)
    requires
        forall|k: int| #[trigger] season_match_at(region, k) is None,
    ensures
        spec_season_of(region) == 1,
{
    lemma_no_matches(region, 0);
    assert(resolve_season(region, Seq::<(int, int)>::empty()) == 1);
}

/// Episode digit extraction: when the episode region holds a first digit
/// run whose value fits, the resolved episode is exactly that value.
pub proof fn lemma_episode_first_run(region: Seq<char>, v: int)
    requires
        first_digit_run_val(region) == Some(v),
        v <= u32::MAX,
    ensures
        spec_episode_of(region) == v,
{
}

/// Default title precedence: Chinese if present, else English, else
/// Japanese, else empty.
pub proof fn lemma_default_title_precedence(t: &BangumiTitle)
    ensures
        t.cn_view() is Some ==> t.spec_default_title() == t.cn_view().unwrap(),
        t.cn_view() is None && t.en_view() is Some ==> t.spec_default_title()
            == t.en_view().unwrap(),
        t.cn_view() is None && t.en_view() is None && t.jp_view() is Some
            ==> t.spec_default_title() == t.jp_view().unwrap(),
        t.cn_view() is None && t.en_view() is None && t.jp_view() is None
            ==> t.spec_default_title() == Seq::<char>::empty(),
{
}

} // verus!
