//! Extraction of structured episode metadata (trilingual title, season,
//! episode, release group, file extension) from community release filenames.
//!
//! The pipeline: a normalizer rewrites bracket styles and strips noise
//! tokens; a segmenter splits the normalized text into season, episode and
//! trailer regions; resolvers then read a title, a season number, an episode
//! number, a group label and an extension out of those regions.
//!
//! The text is treated as one line throughout: no wildcard position and no
//! region boundary makes an exception for line-break characters. Only the
//! canonical-shape guard, which blocks re-parsing of already renamed files,
//! constrains them.
pub mod bangumi;
pub mod chars;
pub mod classify;
pub mod laws;
pub mod normalize;
pub mod parser;
pub mod season;
pub mod segment;
pub mod textops;

pub use crate::bangumi::BangumiTitle;
pub use crate::bangumi::LANG;

use vstd::prelude::*;

use crate::bangumi::pad2;
use crate::bangumi::push_pad2;
use crate::textops::chars_to_string;
use crate::textops::push_str_chars;

verus! {

/// A lighter episode record whose group label may be absent and whose
/// filename generation takes the extension from the caller.
pub struct BangumiInfo {
    pub title: BangumiTitle,
    pub season: u32,
    pub episode: u32,
    pub group: Option<String>,
}

/// The filename of a light record:
/// `<default title> - S<season>E<episode> <- group?>.<ext>`, the numbers
/// zero-padded to two digits and the group part present only when a group
/// is known.
pub open spec fn spec_info_filename(b: &BangumiInfo, ext: Seq<char>) -> Seq<char> {
    b.title.spec_default_title() + seq![' ', '-', ' ', 'S'] + pad2(b.season as int) + seq!['E']
        + pad2(b.episode as int) + seq![' '] + (match b.group {
        Some(ref g) => seq!['-', ' '] + g@,
        None => Seq::empty(),
    }) + seq!['.'] + ext
}

impl BangumiInfo {
    /// Generates the record's filename with the given extension.
    pub fn gen_filename(&self, ext: &str) -> (r: String)
        ensures
            r@ == spec_info_filename(self, ext@),
    {
        let mut v: Vec<char> = Vec::new();
        push_str_chars(&mut v, self.title.get_default_title());
        v.push(' ');
        v.push('-');
        v.push(' ');
        v.push('S');
        push_pad2(&mut v, self.season);
        v.push('E');
        push_pad2(&mut v, self.episode);
        v.push(' ');
        if let Some(g) = &self.group {
            v.push('-');
            v.push(' ');
            push_str_chars(&mut v, g.as_str());
        }
        v.push('.');
        push_str_chars(&mut v, ext);
        proof {
            assert(v@ =~= spec_info_filename(self, ext@));
        }
        chars_to_string(&v)
    }
}

} // verus!
