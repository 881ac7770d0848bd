use std::path::PathBuf;

use auto_bangumi_rs::bangumi::Bangumi;
use auto_bangumi_rs::bangumi::BangumiTitle;
use auto_bangumi_rs::bangumi::LANG;
use auto_bangumi_rs::parser::Parser;
use auto_bangumi_rs::BangumiInfo;

#[test]
fn scenario_full_record() {
    let p = Parser::new(
        "[ANi] 卡片战斗!! 先导者 will+Dress 第三季 - 09 [1080P][Baha][WEB-DL][AAC AVC][CHT][MP4].mkv"
            .to_owned(),
    )
    .unwrap();
    assert!(p.can_parse());
    assert_eq!(p.group(), Some("ANi"));
    assert_eq!(p.season(), 3);
    assert_eq!(p.episode(), Some(9));
    assert_eq!(p.extension(), Some(".mkv".to_owned()));
    let b = p.to_bangumi(None).unwrap();
    assert_eq!(b.title.get_default_title(), "卡片战斗!! 先导者 will+Dress");
    assert_eq!(
        b.gen_filename(),
        "卡片战斗!! 先导者 will+Dress - S03E09 - ANi.mkv"
    );
}

#[test]
fn scenario_fancy_brackets_and_banner() {
    let p = Parser::new(
        "【喵萌奶茶屋】★07月新番★[无职转生 2期 / Mushoku Tensei S2][00][1080p][简日双语][招募翻译]"
            .to_owned(),
    )
    .unwrap();
    let b = p.to_bangumi(None).unwrap();
    assert_eq!(b.title.get_default_title(), "无职转生");
    assert_eq!(b.season, 2);
    assert_eq!(b.episode, 0);
    assert_eq!(b.group, "喵萌奶茶屋");
}

#[test]
fn scenario_special_episode_literal() {
    let p = Parser::new(
        "[ANi] 无职转生～到了异世界就拿出真本事 第二季 - 特别篇 [1080P][Baha][WEB-DL][AAC AVC][CHT][MP4]"
            .to_owned(),
    )
    .unwrap();
    assert_eq!(p.season(), 2);
    assert_eq!(p.episode(), Some(0));
    assert_eq!(p.group(), Some("ANi"));
}

#[test]
fn scenario_unparsable_input() {
    let p = Parser::new("hello world".to_owned()).unwrap();
    assert!(!p.can_parse());
    assert_eq!(p.episode(), None);
    assert_eq!(p.season(), 1);
    assert!(p.to_bangumi(None).is_none());
}

#[test]
fn roundtrip_generated_filename_is_refused() {
    let p = Parser::new(
        "[ANi] 卡片战斗!! 先导者 will+Dress 第三季 - 09 [1080P][Baha][WEB-DL][AAC AVC][CHT][MP4].mkv"
            .to_owned(),
    )
    .unwrap();
    let b = p.to_bangumi(None).unwrap();
    let regenerated = b.gen_filename();
    assert!(Parser::new(regenerated).is_none());
}

#[test]
fn season_override_wins() {
    let p = Parser::new(
        "[ANi] 无职转生～到了异世界就拿出真本事 第二季 - 08 [1080P][Baha][WEB-DL][AAC AVC][CHT][MP4]"
            .to_owned(),
    )
    .unwrap();
    let b = p.to_bangumi(Some(7)).unwrap();
    assert_eq!(b.season, 7);
}

#[test]
fn title_by_language() {
    let p = Parser::new(
        "[Lilith-Raws] 不死少女的谋杀闹剧 / Undead Girl Murder Farce - 09 [Baha][WebDL 1080p AVC AAC][CHT]"
            .to_owned(),
    )
    .unwrap();
    let t = p.title().unwrap();
    assert_eq!(t.get_title(LANG::CN), "不死少女的谋杀闹剧");
    assert_eq!(t.get_title(LANG::EN), "Undead Girl Murder Farce");
    assert_eq!(t.get_title(LANG::JP), "");
}

#[test]
fn mixed_script_token_is_japanese() {
    // the token holds both common ideographs and Japanese syllabary
    // characters: the Japanese bucket wins, the Chinese one stays empty
    let p = Parser::new("[Grp] 物語のです / Monogatari Test - 03 [1080p]".to_owned()).unwrap();
    let t = p.title().unwrap();
    assert_eq!(t.get_title(LANG::JP), "物語のです");
    assert_eq!(t.get_title(LANG::CN), "");
    assert_eq!(t.get_title(LANG::EN), "Monogatari Test");
}

#[test]
fn default_title_precedence_order() {
    let all = BangumiTitle::new(
        Some("丙".to_owned()),
        Some("en".to_owned()),
        Some("じ".to_owned()),
    );
    assert_eq!(all.get_default_title(), "丙");
    let no_cn = BangumiTitle::new(None, Some("en".to_owned()), Some("じ".to_owned()));
    assert_eq!(no_cn.get_default_title(), "en");
    let only_jp = BangumiTitle::new(None, None, Some("じ".to_owned()));
    assert_eq!(only_jp.get_default_title(), "じ");
    let none = BangumiTitle::new(None, None, None);
    assert_eq!(none.get_default_title(), "");
}

#[test]
fn gen_filename_unknown_group_and_no_extension() {
    let b = Bangumi::new(
        BangumiTitle::new(Some("某剧".to_owned()), None, None),
        1,
        2,
        "".to_owned(),
        None,
    );
    assert_eq!(b.gen_filename(), "某剧 - S01E02 - Unknown");
}

#[test]
fn gen_filename_wide_numbers() {
    let b = Bangumi::new(
        BangumiTitle::new(None, Some("Show".to_owned()), None),
        100,
        123,
        "Grp".to_owned(),
        Some(".mp4".to_owned()),
    );
    assert_eq!(b.gen_filename(), "Show - S100E123 - Grp.mp4");
}

#[test]
fn gen_fullpath_grouped_and_flat() {
    let b = Bangumi::new(
        BangumiTitle::new(Some("某剧".to_owned()), None, None),
        3,
        9,
        "ANi".to_owned(),
        Some(".mkv".to_owned()),
    );
    let dest = PathBuf::from("/media/out");
    let flat = b.gen_fullpath(&dest, false);
    assert_eq!(flat, PathBuf::from("/media/out/某剧 - S03E09 - ANi.mkv"));
    let grouped = b.gen_fullpath(&dest, true);
    assert_eq!(
        grouped,
        PathBuf::from("/media/out/某剧/Season 03/某剧 - S03E09 - ANi.mkv")
    );
}

#[test]
fn info_filename_with_and_without_group() {
    let with_group = BangumiInfo {
        title: BangumiTitle::new(Some("某剧".to_owned()), None, None),
        season: 1,
        episode: 4,
        group: Some("Grp".to_owned()),
    };
    assert_eq!(with_group.gen_filename("mkv"), "某剧 - S01E04 - Grp.mkv");
    let without_group = BangumiInfo {
        title: BangumiTitle::new(Some("某剧".to_owned()), None, None),
        season: 1,
        episode: 4,
        group: None,
    };
    assert_eq!(without_group.gen_filename("mkv"), "某剧 - S01E04 .mkv");
}

#[test]
fn raw_is_normalized_text() {
    let p = Parser::new("  【A组】 某剧 - 05 [1080p]".to_owned()).unwrap();
    assert_eq!(p.raw(), "[A组] 某剧 - 05 [1080p]");
}

#[test]
fn empty_input_cannot_parse() {
    let p = Parser::new("".to_owned()).unwrap();
    assert!(!p.can_parse());
    assert_eq!(p.raw(), "");
    assert_eq!(p.group(), None);
    assert!(p.title().is_none());
    assert!(p.extension().is_none());
}

#[test]
fn episode_overflowing_digits_falls_back_to_zero() {
    let p = Parser::new("[Grp] 某部剧 - 99999999999 [1080p]".to_owned()).unwrap();
    assert_eq!(p.episode(), Some(0));
}

#[test]
fn episode_indicator_forms() {
    let cases = vec![
        ("[Grp] 某部剧 第03話 [1080p]", 3),
        ("[Grp] 某部剧 (012) [1080p]", 12),
        ("[Grp] 某部剧 [08v2]", 8),
        ("[Grp] 某部剧 [12 END]", 12),
        ("[Grp] 某部剧 EP05 [1080p]", 5),
        ("[Grp] 某部剧 合集 [1080p]", 0),
        ("[Grp] 某部剧 [總集篇]", 0),
    ];
    for (input, episode) in cases {
        let p = Parser::new(input.to_owned()).unwrap();
        assert_eq!(p.episode(), Some(episode), "input: {}", input);
    }
}

#[test]
fn batch_range_takes_latest_match() {
    // the season region is greedy, so the digit-range indicator is matched
    // at the latest position where it still fits
    let p = Parser::new("[Grp] 某部剧 01-12 [1080p]".to_owned()).unwrap();
    assert_eq!(p.episode(), Some(1));
}

#[test]
fn season_indicator_without_number_defaults() {
    let p = Parser::new("[Grp] 某部剧 第x季 - 03 [1080p]".to_owned()).unwrap();
    assert_eq!(p.season(), 1);
}

#[test]
fn only_first_season_indicator_is_honored() {
    // the first indicator carries no number, so the season defaults to 1;
    // the later indicator with a digit is ignored by design
    let p = Parser::new("[Grp] 某部剧 第x季 S2 - 03 [1080p]".to_owned()).unwrap();
    assert_eq!(p.season(), 1);
}

#[test]
fn extension_with_non_ascii_letters() {
    let p = Parser::new("[Grp] 某部剧 - 03 [1080p].é".to_owned()).unwrap();
    assert_eq!(p.extension(), Some(".é".to_owned()));
}

#[test]
fn season_indicator_forms() {
    let cases = vec![
        ("[Grp] 某部剧 2nd Season - 03 [1080p]", 2),
        ("[Grp] 某部剧 Season 4 - 03 [1080p]", 4),
        ("[Grp] 某部剧 S05 - 03 [1080p]", 5),
        ("[Grp] 某部剧 第十季 - 03 [1080p]", 10),
        ("[Grp] 某部剧 3期 - 03 [1080p]", 3),
        ("[Grp] 某部剧 - 03 [1080p]", 1),
    ];
    for (input, season) in cases {
        let p = Parser::new(input.to_owned()).unwrap();
        assert_eq!(p.season(), season, "input: {}", input);
    }
}
