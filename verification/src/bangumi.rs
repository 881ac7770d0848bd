//! The result records: a trilingual title and the assembled episode record,
//! with canonical filename and path generation.
use vstd::prelude::*;

use crate::textops::chars_to_string;
use crate::textops::push_str_chars;

verus! {

/// The three script buckets a title can be given in.
pub enum LANG {
    EN,
    JP,
    CN,
}

/// A title in up to three scripts; at least one is present whenever
/// classification succeeded.
pub struct BangumiTitle {
    cn: Option<String>,
    en: Option<String>,
    jp: Option<String>,
}

impl BangumiTitle {
    /// The Chinese title, as a sequence of characters.
    pub closed spec fn cn_view(&self) -> Option<Seq<char>> {
        match self.cn {
            Some(ref t) => Some(t@),
            None => None,
        }
    }

    /// The English title, as a sequence of characters.
    pub closed spec fn en_view(&self) -> Option<Seq<char>> {
        match self.en {
            Some(ref t) => Some(t@),
            None => None,
        }
    }

    /// The Japanese title, as a sequence of characters.
    pub closed spec fn jp_view(&self) -> Option<Seq<char>> {
        match self.jp {
            Some(ref t) => Some(t@),
            None => None,
        }
    }

    /// The default display title: Chinese first, then English, then
    /// Japanese, and empty when no bucket is present.
    pub open spec fn spec_default_title(&self) -> Seq<char> {
        match self.cn_view() {
            Some(t) => t,
            None => match self.en_view() {
                Some(t) => t,
                None => match self.jp_view() {
                    Some(t) => t,
                    None => Seq::empty(),
                },
            },
        }
    }

    pub fn new(cn: Option<String>, en: Option<String>, jp: Option<String>) -> (r: BangumiTitle)
        ensures
            r.cn_view() == (match cn {
                Some(ref t) => Some(t@),
                None => None::<Seq<char>>,
            }),
            r.en_view() == (match en {
                Some(ref t) => Some(t@),
                None => None::<Seq<char>>,
            }),
            r.jp_view() == (match jp {
                Some(ref t) => Some(t@),
                None => None::<Seq<char>>,
            }),
    {
        BangumiTitle { cn, en, jp }
    }

    /// The title in the asked script, or empty when that bucket is absent.
    pub fn get_title(&self, lang: LANG) -> (r: &str)
        ensures
            r@ == (match lang {
                LANG::CN => self.cn_view(),
                LANG::EN => self.en_view(),
                LANG::JP => self.jp_view(),
            }).unwrap_or(Seq::empty()),
    {
        let opt_title = match lang {
            LANG::CN => &self.cn,
            LANG::EN => &self.en,
            LANG::JP => &self.jp,
        };
        if let Some(title) = opt_title {
            return title.as_str();
        }
        proof {
            reveal_strlit("");
            assert(""@ =~= Seq::<char>::empty());
        }
        ""
    }

    /// The default display title: Chinese, else English, else Japanese,
    /// else empty.
    pub fn get_default_title(&self) -> (r: &str)
        ensures
            r@ == self.spec_default_title(),
    {
        if let Some(t) = &self.cn {
            return t.as_str();
        }
        if let Some(t) = &self.en {
            return t.as_str();
        }
        if let Some(t) = &self.jp {
            return t.as_str();
        }
        proof {
            reveal_strlit("");
            assert(""@ =~= Seq::<char>::empty());
        }
        ""
    }
}

/// The fixed label that stands in for an absent release group.
pub open spec fn unknown_label() -> Seq<char> {
    seq!['U', 'n', 'k', 'n', 'o', 'w', 'n']
}

/// The decimal digits of `n`, most significant first.
pub open spec fn dec_digits(n: int) -> Seq<char>
    decreases n,
    when n >= 0
{
    if n < 10 {
        seq![((n + 48) as u8) as char]
    } else {
        dec_digits(n / 10).push(((n % 10 + 48) as u8) as char)
    }
}

/// The decimal digits of `n`, zero-padded on the left to two digits.
pub open spec fn pad2(n: int) -> Seq<char> {
    if n < 10 {
        seq!['0'] + dec_digits(n)
    } else {
        dec_digits(n)
    }
}

/// The decimal digits of `n`.
pub fn u32_to_dec(n: u32) -> (v: Vec<char>)
    ensures
        v@ == dec_digits(n as int),
    decreases n,
{
    if n < 10 {
        let mut v: Vec<char> = Vec::new();
        v.push(((48 + n) as u8) as char);
        proof {
            assert(v@ =~= dec_digits(n as int));
        }
        v
    } else {
        let mut v = u32_to_dec(n / 10);
        v.push(((48 + n % 10) as u8) as char);
        proof {
            assert(v@ =~= dec_digits(n as int));
        }
        v
    }
}

/// The decimal digits of `n`, zero-padded on the left to two digits.
pub fn u32_to_pad2(n: u32) -> (v: Vec<char>)
    ensures
        v@ == pad2(n as int),
{
    if n < 10 {
        let mut v: Vec<char> = Vec::new();
        v.push('0');
        let d = u32_to_dec(n);
        v.push(d[0]);
        proof {
            assert(dec_digits(n as int).len() == 1);
            assert(v@ =~= pad2(n as int));
        }
        v
    } else {
        u32_to_dec(n)
    }
}

/// Appends the zero-padded number to the working text.
pub fn push_pad2(dst: &mut Vec<char>, n: u32)
    ensures
        final(dst)@ == old(dst)@ + pad2(n as int),
{
    let sp = u32_to_pad2(n);
    let mut k: usize = 0;
    while k < sp.len()
        invariant
            k <= sp@.len(),
            sp@ == pad2(n as int),
            dst@ == old(dst)@ + sp@.subrange(0, k as int),
        decreases sp@.len() - k,
    {
        dst.push(sp[k]);
        k = k + 1;
        proof {
            assert(dst@ =~= old(dst)@ + sp@.subrange(0, k as int));
        }
    }
    proof {
        assert(sp@.subrange(0, sp@.len() as int) =~= sp@);
        assert(dst@ =~= old(dst)@ + pad2(n as int));
    }
}

/// The assembled episode record.
pub struct Bangumi {
    pub title: BangumiTitle,
    pub season: u32,
    pub episode: u32,
    pub group: String,
    pub extension: Option<String>,
}

/// The canonical filename of a record:
/// `<default title> - S<season>E<episode> - <group><extension>`, the
/// numbers zero-padded to two digits and the group label replaced by the
/// fixed sentinel when it is empty.
pub open spec fn spec_gen_filename(b: &Bangumi) -> Seq<char> {
    b.title.spec_default_title() + seq![' ', '-', ' ', 'S'] + pad2(b.season as int) + seq!['E']
        + pad2(b.episode as int) + seq![' ', '-', ' '] + (if b.group@.len() > 0 {
        b.group@
    } else {
        unknown_label()
    }) + (match b.extension {
        Some(ref e) => e@,
        None => Seq::empty(),
    })
}

impl Bangumi {
    pub fn new(
        title: BangumiTitle,
        season: u32,
        episode: u32,
        group: String,
        extension: Option<String>,
    ) -> (r: Bangumi)
        ensures
            r.title == title,
            r.season == season,
            r.episode == episode,
            r.group == group,
            r.extension == extension,
    {
        Bangumi { title, season, episode, group, extension }
    }

    /// Generates the canonical filename of this record.
    pub fn gen_filename(&self) -> (r: String)
        ensures
            r@ == spec_gen_filename(self),
    {
        let mut v: Vec<char> = Vec::new();
        let dt = self.title.get_default_title();
        push_str_chars(&mut v, dt);
        v.push(' ');
        v.push('-');
        v.push(' ');
        v.push('S');
        push_pad2(&mut v, self.season);
        v.push('E');
        push_pad2(&mut v, self.episode);
        v.push(' ');
        v.push('-');
        v.push(' ');
        if self.group.as_str().unicode_len() > 0 {
            push_str_chars(&mut v, self.group.as_str());
        } else {
            push_str_chars(&mut v, "Unknown");
            proof {
                reveal_strlit("Unknown");
                assert("Unknown"@ =~= unknown_label());
            }
        }
        if let Some(e) = &self.extension {
            push_str_chars(&mut v, e.as_str());
        }
        proof {
            assert(v@ =~= spec_gen_filename(self));
        }
        chars_to_string(&v)
    }
}

#[verifier::external_type_specification]
#[verifier::external_body]
pub struct ExPathBuf(std::path::PathBuf);

/// Relies on std's `PathBuf::join`: appends one path segment to a base
/// path. The resulting path is opaque here; which segments go into it is
/// stated by `gen_path_segments`.
#[verifier::external_body]
fn path_join(base: &std::path::PathBuf, seg: &str) -> std::path::PathBuf {
    base.join(seg)
}

/// The name of a season directory: `Season ` and the padded season number.
pub open spec fn season_dir_label(n: int) -> Seq<char> {
    seq!['S', 'e', 'a', 's', 'o', 'n', ' '] + pad2(n)
}

impl Bangumi {
    /// The path segments appended under the destination directory: with
    /// grouping, the default title, the season directory and the canonical
    /// filename; without it, the canonical filename alone.
    pub fn gen_path_segments(&self, group: bool) -> (r: Vec<String>)
        ensures
            group ==> r.deep_view() == seq![
                self.title.spec_default_title(),
                season_dir_label(self.season as int),
                spec_gen_filename(self),
            ],
            !group ==> r.deep_view() == seq![spec_gen_filename(self)],
    {
        let filename = self.gen_filename();
        let mut r: Vec<String> = Vec::new();
        if group {
            let title = self.title.get_default_title();
            let mut dir: Vec<char> = Vec::new();
            dir.push('S');
            dir.push('e');
            dir.push('a');
            dir.push('s');
            dir.push('o');
            dir.push('n');
            dir.push(' ');
            push_pad2(&mut dir, self.season);
            proof {
                assert(dir@ =~= season_dir_label(self.season as int));
            }
            r.push(title.to_owned());
            r.push(chars_to_string(&dir));
            r.push(filename);
            proof {
                assert(r.deep_view() =~= seq![
                    self.title.spec_default_title(),
                    season_dir_label(self.season as int),
                    spec_gen_filename(self),
                ]);
            }
        } else {
            r.push(filename);
            proof {
                assert(r.deep_view() =~= seq![spec_gen_filename(self)]);
            }
        }
        r
    }

    /// The full destination path of this record: the segments of
    /// `gen_path_segments` joined under `dest` through std's path joining.
    pub fn gen_fullpath(&self, dest: &std::path::PathBuf, group: bool) -> std::path::PathBuf {
        let segments = self.gen_path_segments(group);
        proof {
            assert(segments.deep_view().len() == segments@.len());
        }
        let mut p = path_join(dest, segments[0].as_str());
        let mut k: usize = 1;
        while k < segments.len()
            decreases segments@.len() - k,
        {
            p = path_join(&p, segments[k].as_str());
            k = k + 1;
        }
        p
    }
}

} // verus!
