use baize::host::FTS5_TOKENIZE_DOCUMENT;
use baize::tokenize::{Porter, Simple, Token, TokenizerImpl};

const TK: Simple = Simple {};

fn doc(text: &str) -> Vec<String> {
    TK.tokenize(text, FTS5_TOKENIZE_DOCUMENT)
        .unwrap()
        .into_iter()
        .map(|t| t.text)
        .collect::<Vec<_>>()
}

fn stemmed(text: &str) -> Vec<String> {
    Porter {}
        .tokenize(text, FTS5_TOKENIZE_DOCUMENT)
        .unwrap()
        .into_iter()
        .map(|t| t.text)
        .collect::<Vec<_>>()
}

fn spans(tokens: &[Token]) -> Vec<(usize, usize)> {
    tokens.iter().map(|t| (t.start, t.end)).collect()
}

#[test]
fn test_zh() {
    assert_eq!(
        doc("在美国叫超人，在中国叫电棍"),
        vec!["在", "美", "国", "叫", "超", "人", "在", "中", "国", "叫", "电", "棍"]
    );

    assert_eq!(
        doc("   “”啊米浴说的道理、、"),
        vec!["啊", "米", "浴", "说", "的", "道", "理"]
    );

    assert_eq!(doc("，。、；：？！“”‘’（）《》【】—…"), Vec::<&str>::new());
}

#[test]
fn test_en() {
    assert_eq!(
        stemmed("The quick brown fox jumps over the lazy dog."),
        vec!["the", "quick", "brown", "fox", "jump", "over", "the", "lazi", "dog"]
    );

    assert_eq!(
        doc("The quick brown fox jumps over the lazy dog."),
        vec!["the", "quick", "brown", "fox", "jumps", "over", "the", "lazy", "dog"]
    );
}

#[test]
fn test_num() {
    assert_eq!(doc("1,000.00"), vec!["1000.00"]);
    assert_eq!(doc("1,000"), vec!["1000"]);
    assert_eq!(doc("1,000.00.00"), vec!["1000.00.00"]);

    assert_eq!(doc("练习时长2.5年"), vec!["练", "习", "时", "长", "2.5", "年"]);
}

#[test]
fn test_mix() {
    assert_eq!(
        doc("在美国叫超人Superman"),
        vec!["在", "美", "国", "叫", "超", "人", "superman"]
    );

    assert_eq!(
        doc("在美国叫超人Superman，中国叫电棍"),
        vec!["在", "美", "国", "叫", "超", "人", "superman", "中", "国", "叫", "电", "棍"]
    );
}

#[test]
fn empty_text_has_no_tokens() {
    assert!(TK.tokenize("", 0).unwrap().is_empty());
}

#[test]
fn whitespace_and_delimiters_yield_nothing() {
    assert_eq!(doc(" \t\r\n\u{3000}!\"#$%&'()*+,-./:;<=>?@[\\]^_`{|}~"), Vec::<&str>::new());
    assert_eq!(doc("。。。 ，， 、"), Vec::<&str>::new());
}

#[test]
fn spans_are_byte_offsets() {
    let tokens = TK.tokenize("在美国叫超人Superman", 0).unwrap();
    assert_eq!(
        spans(&tokens),
        vec![(0, 3), (3, 6), (6, 9), (9, 12), (12, 15), (15, 18), (18, 26)]
    );
    assert!(tokens.iter().all(|t| !t.colocated));
}

#[test]
fn number_spans_cover_the_separators() {
    let tokens = TK.tokenize("a 1,000.00!", 0).unwrap();
    assert_eq!(tokens.len(), 2);
    assert_eq!(tokens[0].text, "a");
    assert_eq!((tokens[0].start, tokens[0].end), (0, 1));
    assert_eq!(tokens[1].text, "1000.00");
    assert_eq!((tokens[1].start, tokens[1].end), (2, 10));
}

#[test]
fn separator_without_digit_behind_it_ends_the_number() {
    assert_eq!(doc("1,x"), vec!["1", "x"]);
    assert_eq!(doc("1."), vec!["1"]);
    assert_eq!(doc("1,"), vec!["1"]);
    assert_eq!(doc("1,,0"), vec!["1", "0"]);
    assert_eq!(doc("1.,0"), vec!["1", "0"]);
    assert_eq!(doc(",5"), vec!["5"]);
    assert_eq!(doc("1 000"), vec!["1", "000"]);
    let tokens = TK.tokenize("1,x", 0).unwrap();
    assert_eq!(spans(&tokens), vec![(0, 1), (2, 3)]);
}

#[test]
fn decimal_points_stay_and_commas_go() {
    assert_eq!(doc("3.14"), vec!["3.14"]);
    assert_eq!(doc("1,2,3"), vec!["123"]);
    assert_eq!(doc("1.2,3"), vec!["1.23"]);
}

#[test]
fn letters_and_digits_are_separate_runs() {
    assert_eq!(doc("abc123def"), vec!["abc", "123", "def"]);
    assert_eq!(doc("3.14abc"), vec!["3.14", "abc"]);
    assert_eq!(doc("x1,000y"), vec!["x", "1000", "y"]);
}

#[test]
fn other_characters_stand_alone() {
    assert_eq!(doc("éé"), vec!["é", "é"]);
    assert_eq!(doc("naïve"), vec!["na", "ï", "ve"]);
    assert_eq!(doc("😀a"), vec!["😀", "a"]);
    let tokens = TK.tokenize("😀a", 0).unwrap();
    assert_eq!(spans(&tokens), vec![(0, 4), (4, 5)]);
}

#[test]
fn only_ascii_capitals_are_folded() {
    assert_eq!(doc("HeLLo WORLD"), vec!["hello", "world"]);
    assert_eq!(doc("É"), vec!["É"]);
}

#[test]
fn flags_do_not_change_the_tokens() {
    let text = "The 2.5 超人 jumps";
    let a: Vec<_> = TK.tokenize(text, 0).unwrap().into_iter().map(|t| (t.text, t.start, t.end)).collect();
    let b: Vec<_> = TK
        .tokenize(text, FTS5_TOKENIZE_DOCUMENT)
        .unwrap()
        .into_iter()
        .map(|t| (t.text, t.start, t.end))
        .collect();
    let c: Vec<_> = TK.tokenize(text, -1).unwrap().into_iter().map(|t| (t.text, t.start, t.end)).collect();
    assert_eq!(a, b);
    assert_eq!(a, c);
}

#[test]
fn repeated_calls_give_the_same_tokens() {
    let text = "在美国叫超人Superman，1,000.00 dogs";
    let first: Vec<_> = TK
        .tokenize(text, 0)
        .unwrap()
        .into_iter()
        .map(|t| (t.text, t.start, t.end, t.colocated))
        .collect();
    let second: Vec<_> = TK
        .tokenize(text, 0)
        .unwrap()
        .into_iter()
        .map(|t| (t.text, t.start, t.end, t.colocated))
        .collect();
    assert_eq!(first, second);
    assert_eq!(first.len(), 9);
}

#[test]
fn starts_never_decrease_and_spans_lie_in_the_text() {
    let text = "Mixed 文本 with 1,234.5 numbers、and… “quotes” 😀!";
    let tokens = TK.tokenize(text, 0).unwrap();
    assert!(!tokens.is_empty());
    for pair in tokens.windows(2) {
        assert!(pair[0].start <= pair[1].start);
        assert!(pair[0].end <= pair[1].start);
    }
    for t in &tokens {
        assert!(t.start <= t.end);
        assert!(t.end <= text.len());
        assert!(text.is_char_boundary(t.start));
        assert!(text.is_char_boundary(t.end));
    }
}

#[test]
fn digits_are_split_at_full_width_marks() {
    assert_eq!(
        doc("1！5！ 哥们在这给你说唱"),
        vec!["1", "5", "哥", "们", "在", "这", "给", "你", "说", "唱"]
    );
    assert_eq!(doc("哥们"), vec!["哥", "们"]);
    assert_eq!(doc("15"), vec!["15"]);
}

#[test]
fn stemming_replaces_each_word_by_its_stem() {
    assert_eq!(stemmed("totally"), vec!["total"]);
    assert_eq!(stemmed("Running DOGS"), vec!["run", "dog"]);
    assert_eq!(stemmed("caresses ponies"), vec!["caress", "poni"]);
    let tokens = Porter {}.tokenize("Totally 1,000 超", 0).unwrap();
    assert_eq!(tokens[0].text, "total");
    assert_eq!((tokens[0].start, tokens[0].end), (0, 7));
    assert_eq!(tokens[1].text, "1000");
    assert_eq!(tokens[2].text, "超");
}

#[test]
fn both_simple_engines_can_always_be_made() {
    let args: Vec<&[u8]> = vec![b"porter", b"unicode61"];
    assert!(Simple::new(&args).is_ok());
    assert!(Simple::new(&[]).is_ok());
    assert!(Porter::new(&args).is_ok());
}
