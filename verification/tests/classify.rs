use baize::tokenize::classify::{is_chinese_delimiter, TokenType};
use baize::tokenize::text::chars_of;

#[test]
fn whitespace_comes_first() {
    for c in [' ', '\t', '\n', '\r', '\u{0b}', '\u{0c}', '\u{a0}', '\u{2003}', '\u{3000}'] {
        assert_eq!(TokenType::from(c), TokenType::WhiteSpace);
    }
}

#[test]
fn whitespace_is_twenty_five_characters() {
    let listed = |c: char| {
        matches!(
            c,
            '\u{9}'..='\u{d}'
                | ' '
                | '\u{85}'
                | '\u{a0}'
                | '\u{1680}'
                | '\u{2000}'..='\u{200a}'
                | '\u{2028}'
                | '\u{2029}'
                | '\u{202f}'
                | '\u{205f}'
                | '\u{3000}'
        )
    };
    let mut count = 0;
    for c in '\u{0}'..=char::MAX {
        assert_eq!(TokenType::from(c) == TokenType::WhiteSpace, listed(c), "U+{:04X}", c as u32);
        if listed(c) {
            count += 1;
        }
    }
    assert_eq!(count, 25);
}

#[test]
fn ascii_punctuation_is_a_delimiter() {
    for c in "!\"#$%&'()*+,-./:;<=>?@[\\]^_`{|}~".chars() {
        assert_eq!(TokenType::from(c), TokenType::Delimiter);
    }
}

#[test]
fn ascii_letters_are_alpha() {
    for c in ('a'..='z').chain('A'..='Z') {
        assert_eq!(TokenType::from(c), TokenType::Alpha);
    }
}

#[test]
fn ascii_digits_are_numeric() {
    for c in '0'..='9' {
        assert_eq!(TokenType::from(c), TokenType::Numeric);
    }
}

#[test]
fn full_width_marks_are_delimiters() {
    let marks = "。，、；：？！“”‘’（）《》【】—…";
    assert_eq!(marks.chars().count(), 19);
    for c in marks.chars() {
        assert!(is_chinese_delimiter(c));
        assert_eq!(TokenType::from(c), TokenType::Delimiter);
    }
}

#[test]
fn everything_else_is_other() {
    for c in ['中', '国', 'é', 'ß', 'я', '٣', '１', 'Ａ', '😀', '\u{0}', '\u{7f}', '·', '「', '」'] {
        assert!(!is_chinese_delimiter(c));
        assert_eq!(TokenType::from(c), TokenType::Other);
    }
}

#[test]
fn ascii_is_no_full_width_mark() {
    for c in '\u{0}'..='\u{7f}' {
        assert!(!is_chinese_delimiter(c));
    }
}

#[test]
fn chars_of_lists_the_characters() {
    assert_eq!(chars_of("a超😀"), vec!['a', '超', '😀']);
    assert!(chars_of("").is_empty());
}
