//! Character classes: the categories a scanner groups characters by.

use vstd::prelude::*;
use vstd::std_specs::convert::FromSpecImpl;

verus! {

/// The category of a single character.
#[derive(Clone, Copy, Debug, PartialEq, Eq, Structural)]
pub enum TokenType {
    WhiteSpace,
    Delimiter,
    Alpha,
    Numeric,
    Other,
}

/// The characters with the Unicode property `White_Space`, twenty-five in
/// all: U+0009..=U+000D, U+0020, U+0085, U+00A0, U+1680, U+2000..=U+200A,
/// U+2028, U+2029, U+202F, U+205F and U+3000.
pub open spec fn unicode_white_space(c: char) -> bool {
    ||| '\u{9}' <= c <= '\u{d}'
    ||| c == ' '
    ||| c == '\u{85}'
    ||| c == '\u{a0}'
    ||| c == '\u{1680}'
    ||| '\u{2000}' <= c <= '\u{200a}'
    ||| c == '\u{2028}'
    ||| c == '\u{2029}'
    ||| c == '\u{202f}'
    ||| c == '\u{205f}'
    ||| c == '\u{3000}'
}

/// `char::is_whitespace` is true exactly on the characters with the Unicode
/// property `White_Space`.
pub assume_specification[ char::is_whitespace ](c: char) -> (b: bool)
    ensures
        b == unicode_white_space(c),
;

/// The ASCII punctuation characters: the four ranges `!`..=`/`, `:`..=`@`,
/// `[`..=`` ` `` and `{`..=`~`.
pub open spec fn ascii_punctuation(c: char) -> bool {
    ||| '!' <= c <= '/'
    ||| ':' <= c <= '@'
    ||| '[' <= c <= '`'
    ||| '{' <= c <= '~'
}

/// The ASCII letters `A`..=`Z` and `a`..=`z`.
pub open spec fn ascii_alphabetic(c: char) -> bool {
    ||| 'A' <= c <= 'Z'
    ||| 'a' <= c <= 'z'
}

/// The ASCII digits `0`..=`9`.
pub open spec fn ascii_digit(c: char) -> bool {
    '0' <= c <= '9'
}

/// `char::is_ascii_punctuation` is true exactly on the four ASCII ranges
/// U+0021..=U+002F, U+003A..=U+0040, U+005B..=U+0060 and U+007B..=U+007E.
pub assume_specification[ char::is_ascii_punctuation ](c: &char) -> (b: bool)
    ensures
        b == ascii_punctuation(*c),
;

/// `char::is_ascii_alphabetic` is true exactly on U+0041..=U+005A and
/// U+0061..=U+007A.
pub assume_specification[ char::is_ascii_alphabetic ](c: &char) -> (b: bool)
    ensures
        b == ascii_alphabetic(*c),
;

/// `char::is_ascii_digit` is true exactly on U+0030..=U+0039.
pub assume_specification[ char::is_ascii_digit ](c: &char) -> (b: bool)
    ensures
        b == ascii_digit(*c),
;

/// The full-width punctuation marks that end a run: sentence and clause
/// marks, quotes, brackets, the dash and the ellipsis.
pub open spec fn chinese_delimiters() -> Set<char> {
    set![
        '。', '，', '、', '；', '：', '？', '！', '“', '”', '‘', '’', '（', '）', '《', '》',
        '【', '】', '—', '…',
    ]
}

/// Whether `c` is one of the full-width punctuation marks.
pub fn is_chinese_delimiter(c: char) -> (b: bool)
    ensures
        b == chinese_delimiters().contains(c),
{
    matches!(
        c,
        '。' | '，' | '、' | '；' | '：' | '？' | '！' | '“' | '”' | '‘' | '’' | '（' | '）'
            | '《' | '》' | '【' | '】' | '—' | '…'
    )
}

/// The category of `c`. The tests are made in this order, and the first that
/// holds decides: whitespace, ASCII punctuation, ASCII letter, ASCII digit,
/// full-width punctuation; everything else, ideographs included, is `Other`.
pub open spec fn classify(c: char) -> TokenType {
    if unicode_white_space(c) {
        TokenType::WhiteSpace
    } else if ascii_punctuation(c) {
        TokenType::Delimiter
    } else if ascii_alphabetic(c) {
        TokenType::Alpha
    } else if ascii_digit(c) {
        TokenType::Numeric
    } else if chinese_delimiters().contains(c) {
        TokenType::Delimiter
    } else {
        TokenType::Other
    }
}

impl From<char> for TokenType {
    fn from(c: char) -> (t: Self) {
        if c.is_whitespace() {
            TokenType::WhiteSpace
        } else if c.is_ascii_punctuation() {
            TokenType::Delimiter
        } else if c.is_ascii_alphabetic() {
            TokenType::Alpha
        } else if c.is_ascii_digit() {
            TokenType::Numeric
        } else if is_chinese_delimiter(c) {
            TokenType::Delimiter
        } else {
            TokenType::Other
        }
    }
}

impl FromSpecImpl<char> for TokenType {
    open spec fn obeys_from_spec() -> bool {
        true
    }

    open spec fn from_spec(c: char) -> Self {
        classify(c)
    }
}

} // verus!
