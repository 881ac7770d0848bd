//! The parser record: owns the normalized filename text and the three
//! region boundaries the segmenter found, and derives the release group,
//! title, season, episode and extension from them. All accessors are pure
//! reads of the stored state.
use vstd::prelude::*;

use crate::bangumi::Bangumi;
use crate::bangumi::BangumiTitle;
use crate::bangumi::unknown_label;
use crate::chars::is_word;
use crate::chars::ex_is_word;
use crate::classify::spec_title;
use crate::classify::title_of;
use crate::normalize::is_formatted;
use crate::normalize::normalize;
use crate::normalize::spec_is_formatted;
use crate::normalize::spec_normalize;
use crate::season::first_digit_idx;
use crate::season::first_digit_run_val;
use crate::season::lemma_first_digit_idx;
use crate::season::spec_season_of;
use crate::season::season_of;
use crate::season::ex_first_digit_idx;
use crate::segment::ex_nbrun_end;
use crate::segment::lemma_drun;
use crate::segment::nbrun;
use crate::segment::segment;
use crate::segment::spec_segment;
use crate::segment::ex_drun_end;
use crate::textops::chars_to_string;
use crate::textops::parse_u32;
use crate::textops::run_len;
use crate::textops::lemma_run_len;
use crate::textops::str_to_chars;
use crate::textops::subrange_chars;

verus! {

/// The first bracket-delimited span anywhere in the text, from `i` on, as
/// the (start, end) of its inner content; the content is non-empty and
/// holds no closing bracket.
pub open spec fn find_group_from(s: Seq<char>, i: int) -> Option<(int, int)>
    decreases s.len() - i,
    when 0 <= i
{
    if i >= s.len() {
        None
    } else if s[i] == '[' && nbrun(s, i + 1) >= 1 && i + 1 + nbrun(s, i + 1) < s.len() {
        Some((i + 1, i + 1 + nbrun(s, i + 1)))
    } else {
        find_group_from(s, i + 1)
    }
}

fn ex_find_group(s: &Vec<char>) -> (r: Option<(usize, usize)>)
    ensures
        match r {
            Some((a, b)) => find_group_from(s@, 0) == Some((a as int, b as int)) && a <= b
                <= s@.len(),
            None => find_group_from(s@, 0) is None,
        },
{
    let n = s.len();
    let mut i: usize = 0;
    while i < n
        invariant
            i <= n == s@.len(),
            find_group_from(s@, 0) == find_group_from(s@, i as int),
        decreases n - i,
    {
        if s[i] == '[' {
            let e = ex_nbrun_end(s, i + 1);
            if e > i + 1 && e < n {
                return Some((i + 1, e));
            }
        }
        i = i + 1;
    }
    None
}

/// The run of word characters starting at `i`.
pub open spec fn wrun(s: Seq<char>, i: int) -> int {
    run_len(s, i, |c: char| is_word(c))
}

fn ex_wrun_end(s: &Vec<char>, i: usize) -> (e: usize)
    requires
        i <= s@.len(),
    ensures
        e == i + wrun(s@, i as int),
        i <= e <= s@.len(),
    decreases s@.len() - i,
{
    proof {
        lemma_run_len(s@, i as int, |c: char| is_word(c));
    }
    if i < s.len() && ex_is_word(s[i]) {
        let e = ex_wrun_end(s, i + 1);
        e
    } else {
        i
    }
}

/// The position of a trailing dotted suffix in the trailer text: a dot
/// followed only by word characters, at least one, up to the very end.
pub open spec fn ext_idx(t: Seq<char>, i: int) -> Option<int>
    decreases t.len() - i,
    when 0 <= i
{
    if i >= t.len() {
        None
    } else if t[i] == '.' && wrun(t, i + 1) == t.len() - (i + 1) && t.len() - (i + 1) >= 1 {
        Some(i)
    } else {
        ext_idx(t, i + 1)
    }
}

/// The trailing dotted suffix of the trailer text, dot included.
pub open spec fn spec_ext(t: Seq<char>) -> Option<Seq<char>> {
    match ext_idx(t, 0) {
        Some(i) => Some(t.subrange(i, t.len() as int)),
        None => None,
    }
}

fn ex_ext(t: &Vec<char>) -> (r: Option<Vec<char>>)
    ensures
        match r {
            Some(v) => spec_ext(t@) == Some(v@),
            None => spec_ext(t@) is None,
        },
{
    let n = t.len();
    let mut i: usize = 0;
    while i < n
        invariant
            i <= n == t@.len(),
            ext_idx(t@, 0) == ext_idx(t@, i as int),
        decreases n - i,
    {
        if t[i] == '.' {
            let e = ex_wrun_end(t, i + 1);
            if e == n && e > i + 1 {
                return Some(subrange_chars(t, i, n));
            }
        }
        i = i + 1;
    }
    None
}

/// The episode number read from an episode-region text: the value of the
/// first run of decimal digits; 0 when there is none or when the value does
/// not fit.
pub open spec fn spec_episode_of(region: Seq<char>) -> int {
    match first_digit_run_val(region) {
        Some(v) => if v <= u32::MAX {
            v
        } else {
            0
        },
        None => 0,
    }
}

/// The episode number of any region is a valid `u32`.
pub proof fn lemma_episode_bounds(region: Seq<char>)
    ensures
        0 <= spec_episode_of(region) <= u32::MAX,
{
    lemma_first_digit_idx(region, 0);
    match first_digit_idx(region, 0) {
        Some(d) => {
            lemma_drun(region, d);
            crate::textops::lemma_digits_val_nonneg(
                region.subrange(d, d + crate::segment::drun(region, d)),
            );
        },
        None => {},
    }
}

/// The parser: the normalized text and the regions found in it. The three
/// regions are adjacent and in bounds whenever segmentation succeeded, and
/// all accessors are pure functions of this stored state.
pub struct Parser {
    raw: String,
    chars: Vec<char>,
    seg: Option<(usize, usize, usize)>,
}

impl Parser {
    /// The normalized text the parser owns.
    pub closed spec fn text(&self) -> Seq<char> {
        self.chars@
    }

    #[verifier::type_invariant]
    spec fn wf(&self) -> bool {
        &&& self.raw@ == self.chars@
        &&& (match self.seg {
            Some((a, e, d)) => spec_segment(self.chars@) == Some((a as int, e as int, d as int))
                && a <= e < d <= self.chars@.len(),
            None => spec_segment(self.chars@) is None,
        })
    }

    /// Builds a parser from a raw filename: refused (nothing is returned)
    /// when the filename already has the canonical renamed shape; otherwise
    /// the parser owns the normalized text with the regions found in it.
    pub fn new(raw_title: String) -> (r: Option<Parser>)
        ensures
            spec_is_formatted(raw_title@) <==> r is None,
            r is Some ==> r.unwrap().text() == spec_normalize(raw_title@),
    {
        let chars = str_to_chars(raw_title.as_str());
        if is_formatted(&chars) {
            return None;
        }
        let norm = normalize(&chars);
        let seg = segment(&norm);
        let raw = chars_to_string(&norm);
        Some(Parser { raw, chars: norm, seg })
    }

    /// The first bracket-delimited tag anywhere in the normalized text.
    pub fn group(&self) -> (r: Option<&str>)
        ensures
            match r {
                Some(g) => find_group_from(self.text(), 0) matches Some((a, b)) && g@
                    == self.text().subrange(a, b),
                None => find_group_from(self.text(), 0) is None,
            },
    {
        proof {
            use_type_invariant(&*self);
        }
        if let Some((a, b)) = ex_find_group(&self.chars) {
            Some(self.raw.as_str().substring_char(a, b))
        } else {
            None
        }
    }

    /// The trilingual title classified out of the season region; nothing
    /// when segmentation failed.
    pub fn title(&self) -> (r: Option<BangumiTitle>)
        ensures
            match spec_segment(self.text()) {
                Some((a, e, d)) => r matches Some(t) && {
                    let buckets = spec_title(self.text().subrange(a, e));
                    &&& t.cn_view() == buckets.0
                    &&& t.en_view() == buckets.1
                    &&& t.jp_view() == buckets.2
                },
                None => r is None,
            },
    {
        proof {
            use_type_invariant(&*self);
        }
        match self.seg {
            Some((a, e, _d)) => {
                let region = subrange_chars(&self.chars, a, e);
                let (cn, en, jp) = title_of(&region);
                let cn_s: Option<String> = match cn {
                    Some(v) => Some(chars_to_string(&v)),
                    None => None,
                };
                let en_s: Option<String> = match en {
                    Some(v) => Some(chars_to_string(&v)),
                    None => None,
                };
                let jp_s: Option<String> = match jp {
                    Some(v) => Some(chars_to_string(&v)),
                    None => None,
                };
                Some(BangumiTitle::new(cn_s, en_s, jp_s))
            },
            None => None,
        }
    }

    /// The season number resolved from the season region; 1 when
    /// segmentation failed or no indicator was found.
    pub fn season(&self) -> (r: u32)
        ensures
            match spec_segment(self.text()) {
                Some((a, e, d)) => r == spec_season_of(self.text().subrange(a, e)),
                None => r == 1,
            },
    {
        proof {
            use_type_invariant(&*self);
        }
        match self.seg {
            Some((a, e, _d)) => {
                let region = subrange_chars(&self.chars, a, e);
                season_of(&region)
            },
            None => 1,
        }
    }

    /// The episode number read from the episode region; nothing when
    /// segmentation failed, and 0 when the region has no digits.
    pub fn episode(&self) -> (r: Option<u32>)
        ensures
            match spec_segment(self.text()) {
                Some((a, e, d)) => r == Some(spec_episode_of(self.text().subrange(e, d)) as u32),
                None => r is None,
            },
    {
        proof {
            use_type_invariant(&*self);
        }
        match self.seg {
            Some((_a, e, d)) => {
                let region = subrange_chars(&self.chars, e, d);
                if let Some(i) = ex_first_digit_idx(&region) {
                    let z = ex_drun_end(&region, i);
                    proof {
                        lemma_drun(region@, i as int);
                    }
                    if let Some(v) = parse_u32(&region, i, z) {
                        return Some(v);
                    }
                    return Some(0);
                }
                Some(0)
            },
            None => None,
        }
    }

    /// The trailing dotted suffix of the trailer region; nothing when
    /// segmentation failed or the trailer carries no such suffix.
    pub fn extension(&self) -> (r: Option<String>)
        ensures
            match spec_segment(self.text()) {
                Some((a, e, d)) => (match spec_ext(self.text().subrange(d, self.text().len() as int)) {
                    Some(x) => r matches Some(v) && v@ == x,
                    None => r is None,
                }),
                None => r is None,
            },
    {
        proof {
            use_type_invariant(&*self);
        }
        match self.seg {
            Some((_a, _e, d)) => {
                let region = subrange_chars(&self.chars, d, self.chars.len());
                match ex_ext(&region) {
                    Some(v) => Some(chars_to_string(&v)),
                    None => None,
                }
            },
            None => None,
        }
    }

    /// The normalized text.
    pub fn raw(&self) -> (r: &str)
        ensures
            r@ == self.text(),
    {
        proof {
            use_type_invariant(&*self);
        }
        self.raw.as_str()
    }

    /// Whether segmentation found an episode region.
    pub fn can_parse(&self) -> (r: bool)
        ensures
            r == (spec_segment(self.text()) is Some),
    {
        proof {
            use_type_invariant(&*self);
        }
        match self.seg {
            Some(_) => true,
            None => false,
        }
    }

    /// Assembles the episode record: nothing when segmentation failed or
    /// when title classification produced no bucket at all; otherwise the
    /// record combines the resolved title, season (the caller's override
    /// taking precedence), episode, group and extension.
    pub fn to_bangumi(self, season: Option<u32>) -> (r: Option<Bangumi>)
        ensures
            match spec_segment(self.text()) {
                Some((a, e, d)) => {
                    let buckets = spec_title(self.text().subrange(a, e));
                    if buckets.0 is None && buckets.1 is None && buckets.2 is None {
                        r is None
                    } else {
                        r matches Some(b) && {
                            &&& b.title.cn_view() == buckets.0
                            &&& b.title.en_view() == buckets.1
                            &&& b.title.jp_view() == buckets.2
                            &&& (match season {
                                Some(s) => b.season == s,
                                None => b.season == spec_season_of(self.text().subrange(a, e)),
                            })
                            &&& b.episode == spec_episode_of(self.text().subrange(e, d))
                            &&& b.group@ == (match find_group_from(self.text(), 0) {
                                Some((x, y)) => self.text().subrange(x, y),
                                None => unknown_label(),
                            })
                            &&& (match spec_ext(
                                self.text().subrange(d, self.text().len() as int),
                            ) {
                                Some(x) => b.extension matches Some(v) && v@ == x,
                                None => b.extension is None,
                            })
                        }
                    }
                },
                None => r is None,
            },
    {
        if !self.can_parse() {
            return None;
        }
        let group: String = match self.group() {
            Some(g) => g.to_owned(),
            None => {
                proof {
                    reveal_strlit("Unknown");
                    assert("Unknown"@ =~= unknown_label());
                }
                "Unknown".to_owned()
            },
        };
        let title = match self.title() {
            Some(t) => t,
            None => {
                return None;
            },
        };
        if self.title_is_all_absent() {
            return None;
        }
        let season_num: u32 = match season {
            Some(s) => s,
            None => self.season(),
        };
        let episode = match self.episode() {
            Some(ep) => ep,
            None => 0,
        };
        let extension = self.extension();
        proof {
            crate::segment::lemma_segment_bounds(self.text());
            match spec_segment(self.text()) {
                Some((a, e, d)) => {
                    lemma_episode_bounds(self.text().subrange(e, d));
                },
                None => {},
            }
        }
        Some(Bangumi::new(title, season_num, episode, group, extension))
    }

    /// Whether title classification produced no bucket at all.
    fn title_is_all_absent(&self) -> (r: bool)
        ensures
            match spec_segment(self.text()) {
                Some((a, e, d)) => {
                    let buckets = spec_title(self.text().subrange(a, e));
                    r == (buckets.0 is None && buckets.1 is None && buckets.2 is None)
                },
                None => true,
            },
    {
        proof {
            use_type_invariant(&*self);
        }
        match self.seg {
            Some((a, e, _d)) => {
                let region = subrange_chars(&self.chars, a, e);
                let (cn, en, jp) = title_of(&region);
                cn.is_none() && en.is_none() && jp.is_none()
            },
            None => true,
        }
    }
}

} // verus!
