use auto_bangumi_rs::parser::Parser;

#[test]
fn test_name() {
    let p = Parser::new("【喵萌奶茶屋】★04月新番★[百合是我的工作！/我的百合乃工作是也！/私の百合はお仕事です！/Watashi no Yuri wa Oshigoto desu!][03][1080p][简日双语][招募翻译校对]".to_owned());
    let b = p.unwrap().to_bangumi(None);
    println!("{}", b.unwrap().gen_filename());
}

#[test]
fn test_formatted_name() {
    let p = Parser::new("无职转生，到了异世-界就拿出真本事 第2季 - S02E00 - Skymoon-Raws.mkv".to_owned());
    match p {
        Some(_) => assert!(false),
        None => {}
    }
}
